use vstd::prelude::*;
use crate::words::{
    all_digits, chars_of, copy_range, decimal_value, lemma_decimal_grows, lemma_decimal_prefix, lemma_line_end_bounds,
    line_end, line_words, lines_from, split_words, text_lines, word_views,
};

verus! {

/// Why mesh text in the Wavefront OBJ style was rejected (besides a number
/// that does not read as a float, which the caller checks).
#[derive(Copy, Clone, Debug, PartialEq, Eq, Structural)]
pub enum ObjError {
    /// A command has fewer arguments than it needs.
    MissingArgument,
    /// A face element has more than four `/`-separated indices.
    TooManyIndices,
    /// A face element's position index is zero or absent.
    ZeroIndex,
    /// A face element index does not fit in a `usize`.
    IndexOverflow,
    /// A face element names a position that was not given.
    InvalidPosition(usize),
    /// A face element names a texture coordinate that was not given.
    InvalidTexture(usize),
    /// A face element names a normal that was not given.
    InvalidNormal(usize),
    /// A face element names a color that was not given.
    InvalidColor(usize),
}

/// The four indices of a face element (`position/texture/normal/color`),
/// 1-based, 0 where absent.
#[derive(Copy, Clone, Debug, PartialEq, Eq, Structural)]
pub struct FaceIndices {
    pub position: usize,
    pub texture: usize,
    pub normal: usize,
    pub color: usize,
}

/// Closes the digit run that started at `run` (none when negative) and ended
/// at `end`, storing its value in slot `slot`.
pub open spec fn close_run(w: Seq<char>, ind: Seq<usize>, slot: int, run: int, end: int) -> Result<Seq<usize>, ObjError> {
    if run < 0 {
        Ok(ind)
    } else {
        let v = decimal_value(w.subrange(run, end));
        if v > usize::MAX {
            Err(ObjError::IndexOverflow)
        } else {
            Ok(ind.update(slot, v as usize))
        }
    }
}

pub open spec fn is_digit(c: char) -> bool {
    '0' <= c <= '9'
}

/// A face element read from left to right up to position `k`: the four
/// slots so far, the current slot, and where the current digit run started
/// (negative when none). A digit run is stored in the current slot when it
/// ends; a `/` moves to the next slot; any other character only ends a run.
pub open spec fn scan_element(w: Seq<char>, k: int) -> Result<(Seq<usize>, int, int), ObjError>
    decreases k,
{
    if k <= 0 {
        Ok((seq![0usize, 0usize, 0usize, 0usize], 0, -1))
    } else {
        match scan_element(w, k - 1) {
            Err(e) => Err(e),
            Ok((ind, slot, run)) => {
                let c = w[k - 1];
                if is_digit(c) {
                    Ok((ind, slot, if run < 0 { k - 1 } else { run }))
                } else {
                    match close_run(w, ind, slot, run, k - 1) {
                        Err(e) => Err(e),
                        Ok(ind2) => if c == '/' {
                            if slot + 1 >= 4 {
                                Err(ObjError::TooManyIndices)
                            } else {
                                Ok((ind2, slot + 1, -1))
                            }
                        } else {
                            Ok((ind2, slot, -1))
                        },
                    }
                }
            },
        }
    }
}

/// What a face element word reads as.
pub open spec fn face_element(w: Seq<char>) -> Result<FaceIndices, ObjError> {
    match scan_element(w, w.len() as int) {
        Err(e) => Err(e),
        Ok((ind, slot, run)) => match close_run(w, ind, slot, run, w.len() as int) {
            Err(e) => Err(e),
            Ok(f) => if f[0] == 0 {
                Err(ObjError::ZeroIndex)
            } else {
                Ok(FaceIndices { position: f[0], texture: f[1], normal: f[2], color: f[3] })
            },
        },
    }
}

/// The value of the digits `w[from..to]`, or `None` when it does not fit in
/// a `usize`.
fn run_value(w: &Vec<char>, from: usize, to: usize) -> (r: Option<usize>)
    requires
        from <= to <= w@.len(),
        all_digits(w@.subrange(from as int, to as int)),
    ensures
        r is Some <==> decimal_value(w@.subrange(from as int, to as int)) <= usize::MAX,
        r is Some ==> r->0 == decimal_value(w@.subrange(from as int, to as int)),
{
    let ghost d = w@.subrange(from as int, to as int);
    let mut value: usize = 0;
    let mut i = from;
    while i < to
        invariant
            from <= i <= to <= w@.len(),
            d == w@.subrange(from as int, to as int),
            all_digits(d),
            value == decimal_value(d.subrange(0, i - from)),
        decreases to - i,
    {
        let c = w[i];
        proof {
            assert(d[i - from] == c);
            lemma_decimal_prefix(d, i - from);
            assert(d.subrange(0, i - from + 1) =~= d.subrange(0, i + 1 - from));
        }
        let digit = (c as u32 - '0' as u32) as usize;
        let next = match value.checked_mul(10) {
            Some(t) => t.checked_add(digit),
            None => None,
        };
        match next {
            Some(n) => {
                value = n;
            },
            None => {
                proof {
                    assert(d.subrange(0, d.len() as int) =~= d);
                    lemma_decimal_grows(d, i + 1 - from, d.len() as int);
                }
                return None;
            },
        }
        i = i + 1;
    }
    proof {
        assert(d.subrange(0, i - from) =~= d);
    }
    Some(value)
}

proof fn lemma_scan_error_persists(w: Seq<char>, k: int, m: int)
    requires
        0 < k <= m,
        scan_element(w, k) is Err,
    ensures
        scan_element(w, m) == scan_element(w, k),
    decreases m - k,
{
    if m > k {
        lemma_scan_error_persists(w, k, m - 1);
    }
}

/// Reads a face element word (`p`, `p/t`, `p/t/n`, `p/t/n/c`, with any of
/// the latter indices left empty).
pub fn parse_face_element(w: &Vec<char>) -> (r: Result<FaceIndices, ObjError>)
    ensures
        r == face_element(w@),
{
    let mut ind: Vec<usize> = vec![0, 0, 0, 0];
    let mut slot: usize = 0;
    let mut has_run = false;
    let mut run: usize = 0;
    let mut i: usize = 0;
    proof {
        assert(ind@ =~= seq![0usize, 0usize, 0usize, 0usize]);
    }
    while i < w.len()
        invariant
            0 <= i <= w@.len(),
            ind@.len() == 4,
            slot < 4,
            scan_element(w@, i as int) == Ok::<(Seq<usize>, int, int), ObjError>(
                (ind@, slot as int, if has_run { run as int } else { -1 }),
            ),
            has_run ==> run < i && all_digits(w@.subrange(run as int, i as int)),
        decreases w@.len() - i,
    {
        let c = w[i];
        if '0' <= c && c <= '9' {
            if !has_run {
                has_run = true;
                run = i;
            }
            proof {
                assert forall|j: int| 0 <= j < (i + 1 - run) implies '0' <= #[trigger] w@.subrange(
                    run as int,
                    i + 1,
                )[j] <= '9' by {
                    if j < i - run {
                        assert(w@.subrange(run as int, i + 1)[j] == w@.subrange(run as int, i as int)[j]);
                    }
                }
            }
        } else {
            if has_run {
                match run_value(w, run, i) {
                    None => {
                        proof {
                            lemma_scan_error_persists(w@, i + 1, w@.len() as int);
                        }
                        return Err(ObjError::IndexOverflow);
                    },
                    Some(v) => {
                        ind.set(slot, v);
                    },
                }
                has_run = false;
            }
            if c == '/' {
                if slot + 1 >= 4 {
                    proof {
                        lemma_scan_error_persists(w@, i + 1, w@.len() as int);
                    }
                    return Err(ObjError::TooManyIndices);
                }
                slot = slot + 1;
            }
        }
        i = i + 1;
    }
    if has_run {
        match run_value(w, run, i) {
            None => {
                return Err(ObjError::IndexOverflow);
            },
            Some(v) => {
                ind.set(slot, v);
            },
        }
    }
    if ind[0] == 0 {
        Err(ObjError::ZeroIndex)
    } else {
        Ok(FaceIndices { position: ind[0], texture: ind[1], normal: ind[2], color: ind[3] })
    }
}

/// The kinds of mesh data that a command gives as floats.
#[derive(Copy, Clone, Debug, PartialEq, Eq, Structural)]
pub enum ObjKind {
    Position,
    TextureCoord,
    Normal,
    Color,
}

/// What a line's first word makes of it.
#[derive(Copy, Clone, Debug, PartialEq, Eq, Structural)]
pub enum LineKind {
    Float(ObjKind),
    Face,
    Other,
}

/// The command that a word names: `v`, `vt`, `vn`, `vc` and `f`, each in
/// lower or upper case.
pub open spec fn line_kind(w: Seq<char>) -> LineKind {
    if w == seq!['v'] || w == seq!['V'] {
        LineKind::Float(ObjKind::Position)
    } else if w == seq!['v', 't'] || w == seq!['V', 'T'] {
        LineKind::Float(ObjKind::TextureCoord)
    } else if w == seq!['v', 'n'] || w == seq!['V', 'N'] {
        LineKind::Float(ObjKind::Normal)
    } else if w == seq!['v', 'c'] || w == seq!['V', 'C'] {
        LineKind::Float(ObjKind::Color)
    } else if w == seq!['f'] || w == seq!['F'] {
        LineKind::Face
    } else {
        LineKind::Other
    }
}

/// How many float arguments a command needs.
pub open spec fn required_args(kind: ObjKind) -> nat {
    match kind {
        ObjKind::TextureCoord => 2,
        _ => 3,
    }
}

/// How many more float arguments a command may take (a color's alpha).
pub open spec fn optional_args(kind: ObjKind) -> nat {
    match kind {
        ObjKind::Color => 1,
        _ => 0,
    }
}

/// The arguments of a float command that are read.
pub open spec fn float_args(kind: ObjKind, args: Seq<Seq<char>>) -> Seq<Seq<char>> {
    let n = required_args(kind) + optional_args(kind);
    if args.len() <= n {
        args
    } else {
        args.take(n as int)
    }
}

/// The face element that argument `i` gives.
pub open spec fn element_arg(args: Seq<Seq<char>>, i: int) -> Result<FaceIndices, ObjError> {
    if i < args.len() {
        face_element(args[i])
    } else {
        Err(ObjError::MissingArgument)
    }
}

/// The three elements of a face command, read in order.
pub open spec fn face_statement(args: Seq<Seq<char>>) -> Result<Seq<FaceIndices>, ObjError> {
    match element_arg(args, 0) {
        Err(e) => Err(e),
        Ok(a) => match element_arg(args, 1) {
            Err(e) => Err(e),
            Ok(b) => match element_arg(args, 2) {
                Err(e) => Err(e),
                Ok(c) => Ok(seq![a, b, c]),
            },
        },
    }
}

/// The float command that a line holds, with the arguments that are read
/// (all of them when some are missing).
pub open spec fn line_statement(words: Seq<Seq<char>>) -> Option<(ObjKind, Seq<Seq<char>>)> {
    if words.len() > 0 {
        match line_kind(words[0]) {
            LineKind::Float(kind) => Some((kind, float_args(kind, words.drop_first()))),
            _ => None,
        }
    } else {
        None
    }
}

/// The face elements that a line gives.
pub open spec fn line_faces(words: Seq<Seq<char>>) -> Seq<FaceIndices> {
    if words.len() > 0 && line_kind(words[0]) is Face {
        match face_statement(words.drop_first()) {
            Ok(es) => es,
            Err(_) => Seq::empty(),
        }
    } else {
        Seq::empty()
    }
}

/// Why a line is rejected, if it is.
pub open spec fn line_error(words: Seq<Seq<char>>) -> Option<ObjError> {
    if words.len() > 0 {
        match line_kind(words[0]) {
            LineKind::Float(kind) => if words.len() - 1 < required_args(kind) {
                Some(ObjError::MissingArgument)
            } else {
                None
            },
            LineKind::Face => match face_statement(words.drop_first()) {
                Ok(_) => None,
                Err(e) => Some(e),
            },
            LineKind::Other => None,
        }
    } else {
        None
    }
}

/// The float commands, face elements and error of the first `n` lines;
/// reading stops at the first rejected line.
pub open spec fn read_lines(lines: Seq<Seq<char>>, n: int) -> (Seq<(ObjKind, Seq<Seq<char>>)>, Seq<FaceIndices>, Option<ObjError>)
    decreases n,
{
    if n <= 0 {
        (Seq::empty(), Seq::empty(), None)
    } else {
        let (st, es, err) = read_lines(lines, n - 1);
        if err is Some {
            (st, es, err)
        } else {
            let words = line_words(lines[n - 1]);
            let st2 = match line_statement(words) {
                Some(x) => st.push(x),
                None => st,
            };
            (st2, es + line_faces(words), line_error(words))
        }
    }
}

/// How many of the float commands are of a kind.
pub open spec fn kind_count(st: Seq<(ObjKind, Seq<Seq<char>>)>, kind: ObjKind) -> nat
    decreases st.len(),
{
    if st.len() == 0 {
        0
    } else {
        kind_count(st.drop_last(), kind) + if st.last().0 == kind {
            1nat
        } else {
            0nat
        }
    }
}

/// A vertex of the mesh: 0-based indices into the positions, texture
/// coordinates, normals and colors, in the order their commands came.
#[derive(Copy, Clone, Debug, PartialEq, Eq, Structural)]
pub struct ObjVertex {
    pub position: usize,
    pub texture: Option<usize>,
    pub normal: Option<usize>,
    pub color: Option<usize>,
}

/// Why a face element does not fit the data that was given.
pub open spec fn element_error(e: FaceIndices, counts: (nat, nat, nat, nat)) -> Option<ObjError> {
    if e.position == 0 || e.position > counts.0 {
        Some(ObjError::InvalidPosition(e.position))
    } else if e.texture > counts.1 {
        Some(ObjError::InvalidTexture(e.texture))
    } else if e.normal > counts.2 {
        Some(ObjError::InvalidNormal(e.normal))
    } else if e.color > counts.3 {
        Some(ObjError::InvalidColor(e.color))
    } else {
        None
    }
}

/// The first error among the first `n` face elements.
pub open spec fn first_element_error(es: Seq<FaceIndices>, counts: (nat, nat, nat, nat), n: int) -> Option<ObjError>
    decreases n,
{
    if n <= 0 {
        None
    } else {
        match first_element_error(es, counts, n - 1) {
            Some(e) => Some(e),
            None => element_error(es[n - 1], counts),
        }
    }
}

pub open spec fn optional_index(i: usize) -> Option<usize> {
    if i == 0 {
        None
    } else {
        Some((i - 1) as usize)
    }
}

/// The vertex that a face element makes.
pub open spec fn mesh_vertex(e: FaceIndices) -> ObjVertex {
    ObjVertex {
        position: (e.position - 1) as usize,
        texture: optional_index(e.texture),
        normal: optional_index(e.normal),
        color: optional_index(e.color),
    }
}

/// A mesh whose vertices come from the face elements in order, three to a
/// triangle.
pub struct ObjMesh {
    pub vertices: Vec<ObjVertex>,
    pub faces: Vec<(u32, u32, u32)>,
}

pub open spec fn mesh_from(m: ObjMesh, es: Seq<FaceIndices>) -> bool {
    &&& m.vertices@ == es.map_values(|e: FaceIndices| mesh_vertex(e))
    &&& m.faces@.len() == es.len() / 3
    &&& forall|f: int|
        0 <= f < m.faces@.len() ==> #[trigger] m.faces@[f] == ((3 * f) as u32, (3 * f + 1) as u32, (3 * f + 2) as u32)
}

fn classify(w: &Vec<char>) -> (r: LineKind)
    ensures
        r == line_kind(w@),
{
    let n = w.len();
    proof {
        if n >= 3 || n == 0 {
            assert(w@ != seq!['v']);
            assert(w@ != seq!['V']);
            assert(w@ != seq!['f']);
            assert(w@ != seq!['F']);
            assert(w@.len() != seq!['v', 't'].len());
        }
    }
    if n == 1 {
        let c = w[0];
        proof {
            assert(w@ =~= seq![c]);
        }
        if c == 'v' || c == 'V' {
            LineKind::Float(ObjKind::Position)
        } else if c == 'f' || c == 'F' {
            LineKind::Face
        } else {
            proof {
                assert(seq!['v'][0] == 'v');
                assert(seq!['V'][0] == 'V');
                assert(seq!['f'][0] == 'f');
                assert(seq!['F'][0] == 'F');
            }
            LineKind::Other
        }
    } else if n == 2 {
        let a = w[0];
        let b = w[1];
        proof {
            assert(w@ =~= seq![a, b]);
            assert(seq!['v', 't'][0] == 'v' && seq!['v', 't'][1] == 't');
            assert(seq!['V', 'T'][0] == 'V' && seq!['V', 'T'][1] == 'T');
            assert(seq!['v', 'n'][0] == 'v' && seq!['v', 'n'][1] == 'n');
            assert(seq!['V', 'N'][0] == 'V' && seq!['V', 'N'][1] == 'N');
            assert(seq!['v', 'c'][0] == 'v' && seq!['v', 'c'][1] == 'c');
            assert(seq!['V', 'C'][0] == 'V' && seq!['V', 'C'][1] == 'C');
        }
        if (a == 'v' && b == 't') || (a == 'V' && b == 'T') {
            LineKind::Float(ObjKind::TextureCoord)
        } else if (a == 'v' && b == 'n') || (a == 'V' && b == 'N') {
            LineKind::Float(ObjKind::Normal)
        } else if (a == 'v' && b == 'c') || (a == 'V' && b == 'C') {
            LineKind::Float(ObjKind::Color)
        } else {
            LineKind::Other
        }
    } else {
        LineKind::Other
    }
}

fn check_element(e: FaceIndices, counts: (usize, usize, usize, usize)) -> (r: Option<ObjError>)
    ensures
        r == element_error(e, (counts.0 as nat, counts.1 as nat, counts.2 as nat, counts.3 as nat)),
{
    if e.position == 0 || e.position > counts.0 {
        Some(ObjError::InvalidPosition(e.position))
    } else if e.texture > counts.1 {
        Some(ObjError::InvalidTexture(e.texture))
    } else if e.normal > counts.2 {
        Some(ObjError::InvalidNormal(e.normal))
    } else if e.color > counts.3 {
        Some(ObjError::InvalidColor(e.color))
    } else {
        None
    }
}

fn index_of(i: usize) -> (r: Option<usize>)
    ensures
        r == optional_index(i),
{
    if i == 0 {
        None
    } else {
        Some(i - 1)
    }
}

proof fn lemma_element_error_persists(es: Seq<FaceIndices>, counts: (nat, nat, nat, nat), k: int, m: int)
    requires
        0 < k <= m,
        first_element_error(es, counts, k) is Some,
    ensures
        first_element_error(es, counts, m) == first_element_error(es, counts, k),
    decreases m - k,
{
    if m > k {
        lemma_element_error_persists(es, counts, k, m - 1);
    }
}

/// Builds the mesh from the face elements, three to a triangle, after
/// checking each element against how many positions, texture coordinates,
/// normals and colors were given.
fn assemble(es: &Vec<FaceIndices>, counts: (usize, usize, usize, usize)) -> (r: Result<ObjMesh, ObjError>)
    requires
        es@.len() % 3 == 0,
    ensures
        ({
            let c = (counts.0 as nat, counts.1 as nat, counts.2 as nat, counts.3 as nat);
            match first_element_error(es@, c, es@.len() as int) {
                Some(e) => r == Err::<ObjMesh, ObjError>(e),
                None => r is Ok && mesh_from(r->Ok_0, es@),
            }
        }),
{
    let ghost c = (counts.0 as nat, counts.1 as nat, counts.2 as nat, counts.3 as nat);
    let mut vertices: Vec<ObjVertex> = Vec::new();
    let mut faces: Vec<(u32, u32, u32)> = Vec::new();
    let mut j: usize = 0;
    while j < es.len()
        invariant
            j <= es@.len(),
            es@.len() % 3 == 0,
            j % 3 == 0,
            c == (counts.0 as nat, counts.1 as nat, counts.2 as nat, counts.3 as nat),
            first_element_error(es@, c, j as int) is None,
            vertices@ == es@.take(j as int).map_values(|e: FaceIndices| mesh_vertex(e)),
            faces@.len() == j / 3,
            forall|f: int|
                0 <= f < faces@.len() ==> #[trigger] faces@[f] == ((3 * f) as u32, (3 * f + 1) as u32, (3 * f
                    + 2) as u32),
        decreases es@.len() - j,
    {
        assert(j + 3 <= es@.len());
        faces.push((j as u32, (j + 1) as u32, (j + 2) as u32));
        let mut k: usize = 0;
        while k < 3
            invariant
                j + 3 <= es@.len(),
                k <= 3,
                c == (counts.0 as nat, counts.1 as nat, counts.2 as nat, counts.3 as nat),
                first_element_error(es@, c, (j + k) as int) is None,
                vertices@ == es@.take((j + k) as int).map_values(|e: FaceIndices| mesh_vertex(e)),
            decreases 3 - k,
        {
            let n = es.len();
            assert(j + k < n);
            let e = es[j + k];
            match check_element(e, counts) {
                Some(err) => {
                    proof {
                        lemma_element_error_persists(es@, c, (j + k + 1) as int, es@.len() as int);
                    }
                    return Err(err);
                },
                None => {},
            }
            let v = ObjVertex {
                position: e.position - 1,
                texture: index_of(e.texture),
                normal: index_of(e.normal),
                color: index_of(e.color),
            };
            let ghost before = vertices@;
            vertices.push(v);
            proof {
                assert(es@.take((j + k + 1) as int) =~= es@.take((j + k) as int).push(e));
                assert(vertices@ =~= es@.take((j + k + 1) as int).map_values(|e: FaceIndices| mesh_vertex(e)));
            }
            k = k + 1;
        }
        j = j + 3;
    }
    proof {
        assert(es@.take(j as int) =~= es@);
    }
    Ok(ObjMesh { vertices, faces })
}

/// A float command: its kind and the words of its arguments, which the
/// caller reads as floats.
pub struct ObjStatement {
    pub kind: ObjKind,
    pub args: Vec<Vec<char>>,
}

pub open spec fn statement_view(s: ObjStatement) -> (ObjKind, Seq<Seq<char>>) {
    (s.kind, word_views(s.args@))
}

pub open spec fn statements_view(v: Seq<ObjStatement>) -> Seq<(ObjKind, Seq<Seq<char>>)> {
    v.map_values(|s: ObjStatement| statement_view(s))
}

/// How many positions, texture coordinates, normals and colors the float
/// commands give.
pub open spec fn obj_counts(st: Seq<(ObjKind, Seq<Seq<char>>)>) -> (nat, nat, nat, nat) {
    (
        kind_count(st, ObjKind::Position),
        kind_count(st, ObjKind::TextureCoord),
        kind_count(st, ObjKind::Normal),
        kind_count(st, ObjKind::Color),
    )
}

proof fn lemma_kind_count_push(st: Seq<(ObjKind, Seq<Seq<char>>)>, x: (ObjKind, Seq<Seq<char>>), kind: ObjKind)
    ensures
        kind_count(st.push(x), kind) == kind_count(st, kind) + if x.0 == kind {
            1nat
        } else {
            0nat
        },
{
    assert(st.push(x).drop_last() =~= st);
}

proof fn lemma_kind_counts_sum(st: Seq<(ObjKind, Seq<Seq<char>>)>)
    ensures
        kind_count(st, ObjKind::Position) + kind_count(st, ObjKind::TextureCoord) + kind_count(st, ObjKind::Normal)
            + kind_count(st, ObjKind::Color) == st.len(),
    decreases st.len(),
{
    if st.len() > 0 {
        lemma_kind_counts_sum(st.drop_last());
    }
}

fn count_kind(counts: &mut (usize, usize, usize, usize), kind: ObjKind)
    requires
        old(counts).0 + old(counts).1 + old(counts).2 + old(counts).3 < usize::MAX,
    ensures
        final(counts).0 == old(counts).0 + if kind == ObjKind::Position { 1int } else { 0int },
        final(counts).1 == old(counts).1 + if kind == ObjKind::TextureCoord { 1int } else { 0int },
        final(counts).2 == old(counts).2 + if kind == ObjKind::Normal { 1int } else { 0int },
        final(counts).3 == old(counts).3 + if kind == ObjKind::Color { 1int } else { 0int },
{
    match kind {
        ObjKind::Position => {
            counts.0 = counts.0 + 1;
        },
        ObjKind::TextureCoord => {
            counts.1 = counts.1 + 1;
        },
        ObjKind::Normal => {
            counts.2 = counts.2 + 1;
        },
        ObjKind::Color => {
            counts.3 = counts.3 + 1;
        },
    }
}

fn element_word(words: &Vec<Vec<char>>, i: usize) -> (r: Result<FaceIndices, ObjError>)
    requires
        words@.len() > 0,
    ensures
        r == element_arg(word_views(words@).drop_first(), i as int),
{
    if i < words.len() - 1 {
        parse_face_element(&words[i + 1])
    } else {
        Err(ObjError::MissingArgument)
    }
}

/// Reads one line's words: a float command is added to `statements` (with
/// the arguments it has, when some are missing), a face's three elements to
/// `elements`; returns why the line is rejected, if it is.
fn read_line(
    words: Vec<Vec<char>>,
    statements: &mut Vec<ObjStatement>,
    elements: &mut Vec<FaceIndices>,
    counts: &mut (usize, usize, usize, usize),
) -> (r: Option<ObjError>)
    requires
        old(counts).0 + old(counts).1 + old(counts).2 + old(counts).3 == old(statements)@.len(),
        old(counts).0 == kind_count(statements_view(old(statements)@), ObjKind::Position),
        old(counts).1 == kind_count(statements_view(old(statements)@), ObjKind::TextureCoord),
        old(counts).2 == kind_count(statements_view(old(statements)@), ObjKind::Normal),
        old(counts).3 == kind_count(statements_view(old(statements)@), ObjKind::Color),
    ensures
        statements_view(final(statements)@) == match line_statement(word_views(words@)) {
            Some(x) => statements_view(old(statements)@).push(x),
            None => statements_view(old(statements)@),
        },
        final(elements)@ == old(elements)@ + line_faces(word_views(words@)),
        r == line_error(word_views(words@)),
        final(counts).0 + final(counts).1 + final(counts).2 + final(counts).3 == final(statements)@.len(),
        final(counts).0 == kind_count(statements_view(final(statements)@), ObjKind::Position),
        final(counts).1 == kind_count(statements_view(final(statements)@), ObjKind::TextureCoord),
        final(counts).2 == kind_count(statements_view(final(statements)@), ObjKind::Normal),
        final(counts).3 == kind_count(statements_view(final(statements)@), ObjKind::Color),
{
    let ghost wv = word_views(words@);
    if words.len() == 0 {
        proof {
            assert(old(elements)@ + Seq::<FaceIndices>::empty() =~= old(elements)@);
        }
        return None;
    }
    proof {
        assert(wv[0] == words@[0]@);
    }
    match classify(&words[0]) {
        LineKind::Float(kind) => {
            let required: usize = if kind == ObjKind::TextureCoord {
                2
            } else {
                3
            };
            let readable: usize = if kind == ObjKind::Color {
                4
            } else {
                required
            };
            let mut args = words;
            args.remove(0);
            let missing = args.len() < required;
            if args.len() > readable {
                args.truncate(readable);
            }
            proof {
                assert(word_views(args@) =~= float_args(kind, wv.drop_first()));
            }
            let ghost before = statements_view(statements@);
            proof {
                lemma_kind_counts_sum(before);
            }
            let ghost x = (kind, word_views(args@));
            statements.push(ObjStatement { kind, args });
            let total = statements.len();
            assert(total == old(statements)@.len() + 1);
            count_kind(counts, kind);
            proof {
                assert(statements_view(statements@) =~= before.push(x));
                lemma_kind_count_push(before, x, ObjKind::Position);
                lemma_kind_count_push(before, x, ObjKind::TextureCoord);
                lemma_kind_count_push(before, x, ObjKind::Normal);
                lemma_kind_count_push(before, x, ObjKind::Color);
                assert(old(elements)@ + Seq::<FaceIndices>::empty() =~= old(elements)@);
            }
            if missing {
                Some(ObjError::MissingArgument)
            } else {
                None
            }
        },
        LineKind::Face => {
            let a = element_word(&words, 0);
            let a = match a {
                Err(e) => {
                    proof {
                        assert(old(elements)@ + Seq::<FaceIndices>::empty() =~= old(elements)@);
                    }
                    return Some(e);
                },
                Ok(a) => a,
            };
            let b = element_word(&words, 1);
            let b = match b {
                Err(e) => {
                    proof {
                        assert(old(elements)@ + Seq::<FaceIndices>::empty() =~= old(elements)@);
                    }
                    return Some(e);
                },
                Ok(b) => b,
            };
            let c = element_word(&words, 2);
            let c = match c {
                Err(e) => {
                    proof {
                        assert(old(elements)@ + Seq::<FaceIndices>::empty() =~= old(elements)@);
                    }
                    return Some(e);
                },
                Ok(c) => c,
            };
            elements.push(a);
            elements.push(b);
            elements.push(c);
            proof {
                assert(elements@ =~= old(elements)@ + seq![a, b, c]);
            }
            None
        },
        LineKind::Other => {
            proof {
                assert(old(elements)@ + Seq::<FaceIndices>::empty() =~= old(elements)@);
            }
            None
        },
    }
}

/// What a text gives, read line by line: its float commands, face elements
/// and the error of the first rejected line.
pub open spec fn obj_reading(s: Seq<char>) -> (Seq<(ObjKind, Seq<Seq<char>>)>, Seq<FaceIndices>, Option<ObjError>) {
    read_lines(text_lines(s), text_lines(s).len() as int)
}

/// Mesh text read in full: the float commands, for the caller to read as
/// floats (in order, before it takes `mesh`), and the mesh or the error.
pub struct ObjParse {
    pub statements: Vec<ObjStatement>,
    pub mesh: Result<ObjMesh, ObjError>,
}

proof fn lemma_read_error_persists(lines: Seq<Seq<char>>, k: int, m: int)
    requires
        0 < k <= m,
        read_lines(lines, k).2 is Some,
    ensures
        read_lines(lines, m) == read_lines(lines, k),
    decreases m - k,
{
    if m > k {
        lemma_read_error_persists(lines, k, m - 1);
    }
}

proof fn lemma_faces_in_threes(lines: Seq<Seq<char>>, k: int)
    ensures
        read_lines(lines, k).1.len() % 3 == 0,
    decreases k,
{
    if k > 0 {
        lemma_faces_in_threes(lines, k - 1);
    }
}

/// Reads mesh text in the Wavefront OBJ style, line by line: `v`, `vt`,
/// `vn` and `vc` give positions, texture coordinates, normals and colors
/// (their float arguments are handed back as words), `f` gives a triangle
/// of three `p/t/n/c` elements, other lines are ignored. Reading stops at the
/// first line with a missing argument or a bad face element. Each face
/// element then becomes a vertex, after its indices are checked against
/// what was given.
pub fn parse_obj(data: &str) -> (r: ObjParse)
    ensures
        ({
            let (st, es, err) = obj_reading(data@);
            &&& statements_view(r.statements@) == st
            &&& match err {
                Some(e) => r.mesh == Err::<ObjMesh, ObjError>(e),
                None => match first_element_error(es, obj_counts(st), es.len() as int) {
                    Some(e) => r.mesh == Err::<ObjMesh, ObjError>(e),
                    None => r.mesh is Ok && mesh_from(r.mesh->Ok_0, es),
                },
            }
        }),
{
    let s = chars_of(data);
    let ghost lines = text_lines(s@);
    let mut statements: Vec<ObjStatement> = Vec::new();
    let mut elements: Vec<FaceIndices> = Vec::new();
    let mut counts: (usize, usize, usize, usize) = (0, 0, 0, 0);
    let mut i: usize = 0;
    let ghost mut k: int = 0;
    proof {
        assert(lines.subrange(0, lines.len() as int) =~= lines);
        assert(statements_view(statements@) =~= Seq::empty());
        assert(elements@ =~= Seq::empty());
    }
    while i < s.len()
        invariant
            i <= s@.len(),
            s@ == data@,
            lines == text_lines(s@),
            0 <= k <= lines.len(),
            lines.subrange(k, lines.len() as int) == lines_from(s@, i as int),
            read_lines(lines, k) == (statements_view(statements@), elements@, None::<ObjError>),
            counts.0 + counts.1 + counts.2 + counts.3 == statements@.len(),
            counts.0 == kind_count(statements_view(statements@), ObjKind::Position),
            counts.1 == kind_count(statements_view(statements@), ObjKind::TextureCoord),
            counts.2 == kind_count(statements_view(statements@), ObjKind::Normal),
            counts.3 == kind_count(statements_view(statements@), ObjKind::Color),
        decreases s@.len() - i,
    {
        let mut e = i;
        while e < s.len() && s[e] != '\n'
            invariant
                i <= e <= s@.len(),
                line_end(s@, i as int) == line_end(s@, e as int),
            decreases s@.len() - e,
        {
            e = e + 1;
        }
        proof {
            lemma_line_end_bounds(s@, i as int);
            assert(lines_from(s@, i as int) == seq![s@.subrange(i as int, e as int)] + lines_from(s@, e + 1));
            assert(lines[k] == lines.subrange(k, lines.len() as int)[0]);
        }
        let line = copy_range(&s, i, e);
        let words = split_words(&line);
        let ghost wv = word_views(words@);
        let failed = read_line(words, &mut statements, &mut elements, &mut counts);
        proof {
            assert(read_lines(lines, k + 1) == (statements_view(statements@), elements@, failed));
        }
        match failed {
            Some(err) => {
                proof {
                    lemma_read_error_persists(lines, k + 1, lines.len() as int);
                }
                return ObjParse { statements, mesh: Err(err) };
            },
            None => {},
        }
        proof {
            assert(lines.subrange(k + 1, lines.len() as int) =~= lines.subrange(k, lines.len() as int).drop_first());
            k = k + 1;
        }
        if e < s.len() {
            i = e + 1;
        } else {
            i = s.len();
        }
    }
    proof {
        assert(lines.subrange(k, lines.len() as int).len() == 0);
        lemma_faces_in_threes(lines, k);
    }
    let mesh = assemble(&elements, counts);
    ObjParse { statements, mesh }
}

/// The decimal digits of `n`, most significant first.
pub open spec fn decimal_digits(n: nat) -> Seq<char>
    decreases n,
{
    if n < 10 {
        seq![(n + 48) as char]
    } else {
        decimal_digits(n / 10).push((n % 10 + 48) as char)
    }
}

/// The decimal digit `d`.
fn digit_text(d: usize) -> (r: &'static str)
    requires
        d < 10,
    ensures
        r@ == seq![(d + 48) as char],
{
    proof {
        reveal_strlit("0");
        reveal_strlit("1");
        reveal_strlit("2");
        reveal_strlit("3");
        reveal_strlit("4");
        reveal_strlit("5");
        reveal_strlit("6");
        reveal_strlit("7");
        reveal_strlit("8");
        reveal_strlit("9");
    }
    match d {
        0 => "0",
        1 => "1",
        2 => "2",
        3 => "3",
        4 => "4",
        5 => "5",
        6 => "6",
        7 => "7",
        8 => "8",
        _ => "9",
    }
}

/// `n` written in decimal, most significant digit first, without sign or
/// padding.
pub(crate) fn decimal_text(n: usize) -> (r: String)
    ensures
        r@ == decimal_digits(n as nat),
    decreases n,
{
    if n < 10 {
        digit_text(n).to_owned()
    } else {
        let head = decimal_text(n / 10);
        head.concat(digit_text(n % 10))
    }
}

/// The message that describes an error.
pub open spec fn obj_error_message(e: ObjError) -> Seq<char> {
    match e {
        ObjError::MissingArgument => "missing command argument"@,
        ObjError::TooManyIndices => "4 indices allowed per face element at maximum"@,
        ObjError::ZeroIndex => "face element index cannot be 0"@,
        ObjError::IndexOverflow => "number too large to fit in target type"@,
        ObjError::InvalidPosition(i) => "invalid element position index: "@ + decimal_digits(i as nat),
        ObjError::InvalidTexture(i) => "invalid element UV coordinate index: "@ + decimal_digits(i as nat),
        ObjError::InvalidNormal(i) => "invalid element normal index: "@ + decimal_digits(i as nat),
        ObjError::InvalidColor(i) => "invalid element color index: "@ + decimal_digits(i as nat),
    }
}

impl ObjError {
    /// The message that describes the error.
    pub fn message(&self) -> (r: String)
        ensures
            r@ == obj_error_message(*self),
    {
        match self {
            ObjError::MissingArgument => "missing command argument".to_owned(),
            ObjError::TooManyIndices => "4 indices allowed per face element at maximum".to_owned(),
            ObjError::ZeroIndex => "face element index cannot be 0".to_owned(),
            ObjError::IndexOverflow => "number too large to fit in target type".to_owned(),
            ObjError::InvalidPosition(i) => {
                let digits = decimal_text(*i);
                "invalid element position index: ".to_owned().concat(digits.as_str())
            },
            ObjError::InvalidTexture(i) => {
                let digits = decimal_text(*i);
                "invalid element UV coordinate index: ".to_owned().concat(digits.as_str())
            },
            ObjError::InvalidNormal(i) => {
                let digits = decimal_text(*i);
                "invalid element normal index: ".to_owned().concat(digits.as_str())
            },
            ObjError::InvalidColor(i) => {
                let digits = decimal_text(*i);
                "invalid element color index: ".to_owned().concat(digits.as_str())
            },
        }
    }
}

/// Each vertex of a read mesh comes from the face element at the same place:
/// the element's first index names the position, its second the texture
/// coordinate, its third the normal and its fourth the color, each counted
/// from 1 in the text and from 0 in the vertex, an index of 0 (left out)
/// giving none.
pub proof fn law_mesh_vertices_follow_elements(m: ObjMesh, es: Seq<FaceIndices>, i: int)
    requires
        mesh_from(m, es),
        0 <= i < es.len(),
        es[i].position > 0,
    ensures
        m.vertices@.len() == es.len(),
        m.vertices@[i].position + 1 == es[i].position,
        es[i].texture == 0 ==> m.vertices@[i].texture is None,
        es[i].texture > 0 ==> m.vertices@[i].texture == Some((es[i].texture - 1) as usize),
        es[i].normal == 0 ==> m.vertices@[i].normal is None,
        es[i].normal > 0 ==> m.vertices@[i].normal == Some((es[i].normal - 1) as usize),
        es[i].color == 0 ==> m.vertices@[i].color is None,
        es[i].color > 0 ==> m.vertices@[i].color == Some((es[i].color - 1) as usize),
{
    assert(m.vertices@[i] == mesh_vertex(es[i]));
}

proof fn lemma_scan_digits(w: Seq<char>, k: int, n: int, ind: Seq<usize>, slot: int)
    requires
        0 <= k,
        0 <= n,
        k + n <= w.len(),
        forall|j: int| k <= j < k + n ==> is_digit(#[trigger] w[j]),
        scan_element(w, k) == Ok::<(Seq<usize>, int, int), ObjError>((ind, slot, -1)),
    ensures
        scan_element(w, k + n) == Ok::<(Seq<usize>, int, int), ObjError>((ind, slot, if n > 0 { k } else { -1 })),
    decreases n,
{
    if n > 0 {
        lemma_scan_digits(w, k, n - 1, ind, slot);
        assert(is_digit(w[k + n - 1]));
    }
}

proof fn lemma_scan_slash(w: Seq<char>, k: int, ind: Seq<usize>, slot: int, run: int)
    requires
        0 <= k < w.len(),
        w[k] == '/',
        slot + 1 < 4,
        scan_element(w, k) == Ok::<(Seq<usize>, int, int), ObjError>((ind, slot, run)),
        close_run(w, ind, slot, run, k) is Ok,
    ensures
        scan_element(w, k + 1) == Ok::<(Seq<usize>, int, int), ObjError>(
            (close_run(w, ind, slot, run, k)->Ok_0, slot + 1, -1),
        ),
{
    assert(!is_digit(w[k]));
}

/// A face element written `p/t/n` reads its first number as the position,
/// its second as the texture coordinate and its third as the normal, each a
/// run of decimal digits; a left-out number (as in `p//n`) reads as 0, and
/// so does the color that the element does not give.
pub proof fn law_face_element_slots(p: Seq<char>, t: Seq<char>, n: Seq<char>)
    requires
        p.len() > 0,
        all_digits(p),
        all_digits(t),
        all_digits(n),
        0 < decimal_value(p) <= usize::MAX,
        decimal_value(t) <= usize::MAX,
        decimal_value(n) <= usize::MAX,
    ensures
        face_element(p + seq!['/'] + t + seq!['/'] + n) == Ok::<FaceIndices, ObjError>(
            FaceIndices {
                position: decimal_value(p) as usize,
                texture: decimal_value(t) as usize,
                normal: decimal_value(n) as usize,
                color: 0,
            },
        ),
{
    let w = p + seq!['/'] + t + seq!['/'] + n;
    let lp = p.len() as int;
    let lt = t.len() as int;
    let ln = n.len() as int;
    let z = seq![0usize, 0usize, 0usize, 0usize];
    assert(w.len() == lp + lt + ln + 2);
    assert forall|j: int| 0 <= j < lp implies is_digit(#[trigger] w[j]) by {
        assert(w[j] == p[j]);
    }
    assert forall|j: int| lp + 1 <= j < lp + 1 + lt implies is_digit(#[trigger] w[j]) by {
        assert(w[j] == t[j - lp - 1]);
    }
    assert forall|j: int| lp + lt + 2 <= j < lp + lt + 2 + ln implies is_digit(#[trigger] w[j]) by {
        assert(w[j] == n[j - lp - lt - 2]);
    }
    assert(w[lp] == '/');
    assert(w[lp + 1 + lt] == '/');
    assert(w.subrange(0, lp) =~= p);
    assert(w.subrange(lp + 1, lp + 1 + lt) =~= t);
    assert(w.subrange(lp + lt + 2, lp + lt + 2 + ln) =~= n);
    assert(scan_element(w, 0) == Ok::<(Seq<usize>, int, int), ObjError>((z, 0, -1)));
    lemma_scan_digits(w, 0, lp, z, 0);
    let z1 = z.update(0, decimal_value(p) as usize);
    lemma_scan_slash(w, lp, z, 0, 0);
    lemma_scan_digits(w, lp + 1, lt, z1, 1);
    let run_t = if lt > 0 { lp + 1 } else { -1 };
    let z2 = z1.update(1, decimal_value(t) as usize);
    if lt == 0 {
        assert(decimal_value(t) == 0);
        assert(z2 =~= z1);
    }
    assert(close_run(w, z1, 1, run_t, lp + 1 + lt) == Ok::<Seq<usize>, ObjError>(z2));
    lemma_scan_slash(w, lp + 1 + lt, z1, 1, run_t);
    lemma_scan_digits(w, lp + lt + 2, ln, z2, 2);
    let run_n = if ln > 0 { lp + lt + 2 } else { -1 };
    let z3 = z2.update(2, decimal_value(n) as usize);
    if ln == 0 {
        assert(decimal_value(n) == 0);
        assert(z3 =~= z2);
    }
    assert(w.len() == lp + lt + 2 + ln);
    assert(close_run(w, z2, 2, run_n, w.len() as int) == Ok::<Seq<usize>, ObjError>(z3));
}

} // verus!
