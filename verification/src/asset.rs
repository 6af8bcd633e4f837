use vstd::prelude::*;
use crate::rect::Rectangle;
use crate::obj::{decimal_digits, decimal_text};
use crate::json_data::JsonData;

verus! {

/// The five pieces of a connected block texture, in the order in which
/// their offsets are stored.
#[derive(Copy, Clone, PartialEq, Eq, Structural, Debug)]
pub enum SimpleShape {
    OutwardCorners,
    Horizontal,
    Vertical,
    InwardCorners,
    Fill,
}

/// The position of a shape's offset in `shape_offsets`.
pub open spec fn shape_index(shape: SimpleShape) -> int {
    match shape {
        SimpleShape::OutwardCorners => 0,
        SimpleShape::Horizontal => 1,
        SimpleShape::Vertical => 2,
        SimpleShape::InwardCorners => 3,
        SimpleShape::Fill => 4,
    }
}

impl SimpleShape {
    pub fn index(&self) -> (r: usize)
        ensures
            r == shape_index(*self),
    {
        match self {
            SimpleShape::OutwardCorners => 0,
            SimpleShape::Horizontal => 1,
            SimpleShape::Vertical => 2,
            SimpleShape::InwardCorners => 3,
            SimpleShape::Fill => 4,
        }
    }
}

/// The name that block image metadata uses for a shape.
pub open spec fn shape_name(shape: SimpleShape) -> Seq<char> {
    match shape {
        SimpleShape::OutwardCorners => "outward_corners"@,
        SimpleShape::Horizontal => "horizontal"@,
        SimpleShape::Vertical => "vertical"@,
        SimpleShape::InwardCorners => "inward_corners"@,
        SimpleShape::Fill => "fill"@,
    }
}

impl SimpleShape {
    /// The name that block image metadata uses for the shape.
    pub fn name(&self) -> (r: &'static str)
        ensures
            r@ == shape_name(*self),
    {
        match self {
            SimpleShape::OutwardCorners => "outward_corners",
            SimpleShape::Horizontal => "horizontal",
            SimpleShape::Vertical => "vertical",
            SimpleShape::InwardCorners => "inward_corners",
            SimpleShape::Fill => "fill",
        }
    }
}

/// The shape that a name in block image metadata stands for.
pub open spec fn shape_named(name: Seq<char>) -> Option<SimpleShape> {
    if name == "outward_corners"@ {
        Some(SimpleShape::OutwardCorners)
    } else if name == "horizontal"@ {
        Some(SimpleShape::Horizontal)
    } else if name == "vertical"@ {
        Some(SimpleShape::Vertical)
    } else if name == "inward_corners"@ {
        Some(SimpleShape::InwardCorners)
    } else if name == "fill"@ {
        Some(SimpleShape::Fill)
    } else {
        None
    }
}

/// How a block image lays out its pieces.
#[derive(Copy, Clone, Debug)]
pub enum BlockImageFormat {
    /// One picture used for every quadrant of the block.
    Single,
    /// Five pictures side by side; `shape_offsets[shape_index(s)]` is the
    /// position of shape `s` among them.
    ConnectedSimple { shape_offsets: [u32; 5] },
}

impl BlockImageFormat {
    /// The number of pictures side by side in the image.
    pub open spec fn spec_shape_count(&self) -> u32 {
        match self {
            BlockImageFormat::Single => 1,
            BlockImageFormat::ConnectedSimple { .. } => 5,
        }
    }

    pub fn shape_count(&self) -> (r: u32)
        ensures
            r == self.spec_shape_count(),
    {
        match self {
            Self::Single => 1,
            Self::ConnectedSimple { shape_offsets } => shape_offsets.len() as u32,
        }
    }
}

/// A field of block image metadata as the parser reads it: absent or
/// null, a value of the expected kind, or something else.
#[derive(Clone, Debug)]
pub enum MetadataField<T> {
    Null,
    Value(T),
    Other,
}

/// The parts of a block image's JSON metadata that the parser reads:
/// `size` (read as a `u32`), `format` (read as a string) and the members of
/// `shapes` (each read as a string, `None` when it is not one).
pub struct BlockImageMetadata {
    pub size: MetadataField<u32>,
    pub format: MetadataField<String>,
    pub shapes: Vec<Option<String>>,
}

/// Why block image metadata or an atlas region was rejected.
#[derive(Clone, Debug)]
pub enum BlockImageError {
    MissingSize,
    InvalidSize,
    MissingFormat,
    FormatNotString,
    UnrecognizedFormat(String),
    ShapeNotString,
    UnrecognizedShape(String),
    DuplicateShape(SimpleShape),
    MissingShapes,
    UnexpectedImageSize { expected_width: u32, expected_height: u32, width: u32, height: u32 },
}

/// The shape named by member `i` of `shapes`, if it is a string naming one.
pub open spec fn member_shape(shapes: Seq<Option<String>>, i: int) -> Option<SimpleShape> {
    match shapes[i] {
        Some(name) => shape_named(name@),
        None => None,
    }
}

/// Member `i` of `shapes` names a shape that no earlier member named.
pub open spec fn member_accepted(shapes: Seq<Option<String>>, i: int) -> bool {
    &&& member_shape(shapes, i) is Some
    &&& forall|j: int| 0 <= j < i ==> member_shape(shapes, j) != member_shape(shapes, i)
}

/// The first of the first `n` members of `shapes` that is not accepted.
pub open spec fn first_rejected(shapes: Seq<Option<String>>, n: int) -> Option<int>
    decreases n,
{
    if n <= 0 {
        None
    } else {
        match first_rejected(shapes, n - 1) {
            Some(i) => Some(i),
            None => if member_accepted(shapes, n - 1) {
                None
            } else {
                Some(n - 1)
            },
        }
    }
}

/// The error for a rejected member: not a string, an unknown name, or a
/// shape named before.
pub open spec fn member_error(shapes: Seq<Option<String>>, i: int) -> BlockImageError {
    match shapes[i] {
        None => BlockImageError::ShapeNotString,
        Some(name) => match shape_named(name@) {
            None => BlockImageError::UnrecognizedShape(name),
            Some(shape) => BlockImageError::DuplicateShape(shape),
        },
    }
}

/// The error that the `shapes` list of a connected format gives, if any:
/// that of its first rejected member; otherwise, when fewer than five shapes
/// are named, a missing-shapes error.
pub open spec fn shapes_error(shapes: Seq<Option<String>>) -> Option<BlockImageError> {
    match first_rejected(shapes, shapes.len() as int) {
        Some(i) => Some(member_error(shapes, i)),
        None => if shapes.len() < 5 {
            Some(BlockImageError::MissingShapes)
        } else {
            None
        },
    }
}

/// `offsets` holds, for the shape that each member of `shapes` names, that
/// member's position in the list.
pub open spec fn offsets_match(shapes: Seq<Option<String>>, offsets: Seq<u32>) -> bool {
    &&& offsets.len() == 5
    &&& forall|i: int|
        0 <= i < shapes.len() ==> offsets[shape_index(#[trigger] member_shape(shapes, i).unwrap())] == i
}

/// `offsets` places the five shapes at five different positions among five
/// pictures: it is a permutation of `0..5`.
pub open spec fn offsets_permute(offsets: Seq<u32>) -> bool {
    &&& offsets.len() == 5
    &&& forall|i: int| 0 <= i < 5 ==> #[trigger] offsets[i] < 5
    &&& forall|i: int, j: int| 0 <= i < 5 && 0 <= j < 5 && i != j ==> offsets[i] != offsets[j]
}

/// Whether `a` holds the same text as `b`.
fn string_is(a: &String, b: &str) -> (r: bool)
    ensures
        r == (a@ == b@),
{
    let owned = b.to_owned();
    *a == owned
}

/// The shape that a metadata name stands for, if any.
pub fn parse_shape_name(name: &String) -> (r: Option<SimpleShape>)
    ensures
        r == shape_named(name@),
{
    if string_is(name, "outward_corners") {
        Some(SimpleShape::OutwardCorners)
    } else if string_is(name, "horizontal") {
        Some(SimpleShape::Horizontal)
    } else if string_is(name, "vertical") {
        Some(SimpleShape::Vertical)
    } else if string_is(name, "inward_corners") {
        Some(SimpleShape::InwardCorners)
    } else if string_is(name, "fill") {
        Some(SimpleShape::Fill)
    } else {
        None
    }
}

/// The number of the first `n` offsets that are set (below 5).
pub open spec fn set_count(offsets: Seq<u32>, n: int) -> int
    decreases n,
{
    if n <= 0 {
        0
    } else {
        set_count(offsets, n - 1) + if offsets[n - 1] < 5 {
            1int
        } else {
            0
        }
    }
}

proof fn lemma_set_count_bound(offsets: Seq<u32>, n: int, unset: int)
    requires
        0 <= unset < n,
        n <= offsets.len(),
        offsets[unset] >= 5,
    ensures
        set_count(offsets, n) < n,
    decreases n,
{
    lemma_set_count_at_most(offsets, n - 1);
    if unset < n - 1 {
        lemma_set_count_bound(offsets, n - 1, unset);
    }
}

proof fn lemma_set_count_at_most(offsets: Seq<u32>, n: int)
    ensures
        set_count(offsets, n) <= if n < 0 {
            0
        } else {
            n
        },
    decreases n,
{
    if n > 0 {
        lemma_set_count_at_most(offsets, n - 1);
    }
}

proof fn lemma_set_count_update(offsets: Seq<u32>, n: int, k: int, v: u32)
    requires
        0 <= k < n,
        n <= offsets.len(),
        offsets[k] >= 5,
        v < 5,
    ensures
        set_count(offsets.update(k, v), n) == set_count(offsets, n) + 1,
    decreases n,
{
    if k < n - 1 {
        lemma_set_count_update(offsets, n - 1, k, v);
    } else {
        lemma_set_count_same_prefix(offsets, offsets.update(k, v), n - 1);
    }
}

proof fn lemma_set_count_same_prefix(a: Seq<u32>, b: Seq<u32>, n: int)
    requires
        forall|i: int| 0 <= i < n ==> a[i] == b[i],
    ensures
        set_count(a, n) == set_count(b, n),
    decreases n,
{
    if n > 0 {
        lemma_set_count_same_prefix(a, b, n - 1);
    }
}

/// The offsets of the shapes that a connected format's `shapes` list names.
pub fn parse_shape_offsets(shapes: &Vec<Option<String>>) -> (r: Result<[u32; 5], BlockImageError>)
    ensures
        match r {
            Ok(offsets) => shapes_error(shapes@) is None && offsets_match(shapes@, offsets@) && offsets_permute(
                offsets@,
            ),
            Err(e) => shapes_error(shapes@) == Some(e),
        },
{
    let mut shape_offsets: [u32; 5] = [5; 5];
    let mut offset: usize = 0;
    proof {
        lemma_set_count_none(shape_offsets@, 5);
    }
    while offset < shapes.len()
        invariant
            offset <= shapes@.len(),
            first_rejected(shapes@, offset as int) is None,
            set_count(shape_offsets@, 5) == offset,
            forall|j: int|
                0 <= j < offset ==> shape_offsets@[shape_index(#[trigger] member_shape(shapes@, j).unwrap())] == j,
            forall|k: int|
                0 <= k < 5 && #[trigger] shape_offsets@[k] < 5 ==> shape_offsets@[k] < offset && shape_index(
                    member_shape(shapes@, shape_offsets@[k] as int).unwrap(),
                ) == k,
        decreases shapes@.len() - offset,
    {
        let shape = match &shapes[offset] {
            None => {
                proof {
                    lemma_first_rejected_grows(shapes@, offset as int + 1, shapes@.len() as int);
                }
                return Err(BlockImageError::ShapeNotString);
            },
            Some(name) => match parse_shape_name(name) {
                Some(shape) => shape,
                None => {
                    proof {
                        lemma_first_rejected_grows(shapes@, offset as int + 1, shapes@.len() as int);
                    }
                    return Err(BlockImageError::UnrecognizedShape(name.clone()));
                },
            },
        };
        let k = shape.index();
        if shape_offsets[k] < 5 {
            proof {
                let j = shape_offsets@[k as int] as int;
                lemma_first_rejected_none(shapes@, offset as int, j);
                assert(member_shape(shapes@, offset as int) == Some(shape));
                assert(member_shape(shapes@, j) == member_shape(shapes@, offset as int));
                assert(!member_accepted(shapes@, offset as int));
                lemma_first_rejected_grows(shapes@, offset as int + 1, shapes@.len() as int);
            }
            return Err(BlockImageError::DuplicateShape(shape));
        }
        proof {
            lemma_set_count_bound(shape_offsets@, 5, k as int);
            lemma_set_count_update(shape_offsets@, 5, k as int, offset as u32);
            assert forall|j: int| 0 <= j < offset implies member_shape(shapes@, j) != member_shape(
                shapes@,
                offset as int,
            ) by {
                if member_shape(shapes@, j) == member_shape(shapes@, offset as int) {
                    assert(shape_offsets@[shape_index(member_shape(shapes@, j).unwrap())] == j);
                }
            }
            assert(member_accepted(shapes@, offset as int));
        }
        shape_offsets[k] = offset as u32;
        offset = offset + 1;
    }
    let mut k: usize = 0;
    while k < 5
        invariant
            k <= 5,
            forall|i: int| 0 <= i < k ==> shape_offsets@[i] < 5,
            offset == shapes@.len(),
            first_rejected(shapes@, offset as int) is None,
            set_count(shape_offsets@, 5) == offset,
            forall|j: int|
                0 <= j < offset ==> shape_offsets@[shape_index(#[trigger] member_shape(shapes@, j).unwrap())] == j,
            forall|i: int|
                0 <= i < 5 && #[trigger] shape_offsets@[i] < 5 ==> shape_offsets@[i] < offset && shape_index(
                    member_shape(shapes@, shape_offsets@[i] as int).unwrap(),
                ) == i,
        decreases 5 - k,
    {
        if shape_offsets[k] >= 5 {
            proof {
                lemma_set_count_bound(shape_offsets@, 5, k as int);
            }
            return Err(BlockImageError::MissingShapes);
        }
        k = k + 1;
    }
    proof {
        lemma_set_count_all(shape_offsets@, 5);
        assert forall|i: int, j: int| 0 <= i < 5 && 0 <= j < 5 && i != j implies shape_offsets@[i]
            != shape_offsets@[j] by {
            assert(shape_offsets@[i] < 5);
            assert(shape_offsets@[j] < 5);
        }
    }
    Ok(shape_offsets)
}

proof fn lemma_set_count_none(offsets: Seq<u32>, n: int)
    requires
        n <= offsets.len(),
        forall|i: int| 0 <= i < n ==> offsets[i] >= 5,
    ensures
        set_count(offsets, n) == 0,
    decreases n,
{
    if n > 0 {
        lemma_set_count_none(offsets, n - 1);
    }
}

proof fn lemma_first_rejected_none(shapes: Seq<Option<String>>, n: int, j: int)
    requires
        0 <= j < n,
        first_rejected(shapes, n) is None,
    ensures
        member_accepted(shapes, j),
    decreases n,
{
    if j < n - 1 {
        lemma_first_rejected_none(shapes, n - 1, j);
    }
}

proof fn lemma_first_rejected_grows(shapes: Seq<Option<String>>, n: int, m: int)
    requires
        0 < n <= m,
        first_rejected(shapes, n - 1) is None,
        !member_accepted(shapes, n - 1),
    ensures
        first_rejected(shapes, m) == Some(n - 1),
    decreases m - n,
{
    if m > n {
        lemma_first_rejected_grows(shapes, n, m - 1);
    }
}

proof fn lemma_set_count_all(offsets: Seq<u32>, n: int)
    requires
        0 <= n,
        forall|i: int| 0 <= i < n ==> offsets[i] < 5,
    ensures
        set_count(offsets, n) == n,
    decreases n,
{
    if n > 0 {
        lemma_set_count_all(offsets, n - 1);
    }
}

/// The size that metadata gives an image: its own positive `size`, or the
/// defaults' size when it has none.
pub open spec fn parsed_size(size: MetadataField<u32>, defaults: Option<BlockImage>) -> Result<u32, BlockImageError> {
    match size {
        MetadataField::Null => match defaults {
            Some(d) => Ok(d.size_of()),
            None => Err(BlockImageError::MissingSize),
        },
        MetadataField::Value(v) => if v == 0 {
            Err(BlockImageError::InvalidSize)
        } else {
            Ok(v)
        },
        MetadataField::Other => Err(BlockImageError::InvalidSize),
    }
}

/// The error that the `format` field (with `shapes`) gives, if any.
pub open spec fn format_error(format: MetadataField<String>, shapes: Seq<Option<String>>, defaults: Option<BlockImage>) -> Option<BlockImageError> {
    match format {
        MetadataField::Null => match defaults {
            Some(_) => None,
            None => Some(BlockImageError::MissingFormat),
        },
        MetadataField::Value(name) => if name@ == "single"@ {
            None
        } else if name@ == "connected_simple"@ {
            shapes_error(shapes)
        } else {
            Some(BlockImageError::UnrecognizedFormat(name))
        },
        MetadataField::Other => Some(BlockImageError::FormatNotString),
    }
}

/// The format that metadata without errors gives an image.
pub open spec fn format_matches(
    format: MetadataField<String>,
    shapes: Seq<Option<String>>,
    defaults: Option<BlockImage>,
    result: BlockImageFormat,
) -> bool {
    match format {
        MetadataField::Value(name) => if name@ == "single"@ {
            result is Single
        } else {
            result matches BlockImageFormat::ConnectedSimple { shape_offsets } && offsets_match(
                shapes,
                shape_offsets@,
            )
        },
        _ => defaults matches Some(d) && result == d.format_of(),
    }
}

/// The shape that a quadrant shows, given whether the block connects along
/// the quadrant's horizontal side, along its vertical side, and across its
/// corner.
pub open spec fn quadrant_shape(x_connect: bool, y_connect: bool, diagonal_connect: bool) -> SimpleShape {
    if !x_connect && !y_connect {
        SimpleShape::OutwardCorners
    } else if x_connect && !y_connect {
        SimpleShape::Horizontal
    } else if !x_connect && y_connect {
        SimpleShape::Vertical
    } else if diagonal_connect {
        SimpleShape::Fill
    } else {
        SimpleShape::InwardCorners
    }
}

/// Whether a block connects to each of its eight neighbours.
#[derive(Copy, Clone, Debug)]
pub struct BlockNeighbors {
    pub left: bool,
    pub right: bool,
    pub down: bool,
    pub up: bool,
    pub up_left: bool,
    pub up_right: bool,
    pub down_left: bool,
    pub down_right: bool,
}

/// A block texture: where it lies in the block atlas, the size of one
/// piece, and how its pieces are laid out.
#[derive(Debug)]
pub struct BlockImage {
    key: String,
    atlas_x: u32,
    atlas_y: u32,
    size: u32,
    format: BlockImageFormat,
}

impl BlockImage {
    pub closed spec fn key_of(&self) -> String {
        self.key
    }

    pub closed spec fn atlas_offset_of(&self) -> (u32, u32) {
        (self.atlas_x, self.atlas_y)
    }

    pub closed spec fn size_of(&self) -> u32 {
        self.size
    }

    pub closed spec fn format_of(&self) -> BlockImageFormat {
        self.format
    }

    /// What every block image satisfies: a piece has a positive size, and a
    /// connected format places its five shapes at five different positions.
    pub open spec fn well_formed(&self) -> bool {
        &&& self.size_of() > 0
        &&& match self.format_of() {
            BlockImageFormat::Single => true,
            BlockImageFormat::ConnectedSimple { shape_offsets } => offsets_permute(shape_offsets@),
        }
    }

    #[verifier::type_invariant]
    spec fn image_invariant(self) -> bool {
        self.well_formed()
    }

    /// The atlas position of the piece at `offset` pieces to the right of
    /// the image's corner fits in `u32` for every piece that the format uses.
    pub open spec fn pieces_fit(&self) -> bool {
        match self.format_of() {
            BlockImageFormat::Single => true,
            BlockImageFormat::ConnectedSimple { shape_offsets } => forall|i: int|
                0 <= i < 5 ==> self.atlas_offset_of().0 + #[trigger] shape_offsets@[i] * self.size_of() <= u32::MAX,
        }
    }

    /// The offset, in pieces, of the piece that a quadrant shows.
    pub open spec fn spec_shape_offset(&self, x_connect: bool, y_connect: bool, diagonal_connect: bool) -> u32 {
        match self.format_of() {
            BlockImageFormat::Single => 0,
            BlockImageFormat::ConnectedSimple { shape_offsets } => shape_offsets@[shape_index(
                quadrant_shape(x_connect, y_connect, diagonal_connect),
            )],
        }
    }

    /// Reads a block image from its metadata; what the metadata lacks comes
    /// from `defaults`. A missing or invalid size is reported before any
    /// problem with the format.
    pub fn parse(key: String, metadata: &BlockImageMetadata, defaults: Option<&Self>) -> (r: Result<Self, BlockImageError>)
        ensures
            match parsed_size(metadata.size, deref_image(defaults)) {
                Err(e) => r == Err::<Self, BlockImageError>(e),
                Ok(size) => match format_error(metadata.format, metadata.shapes@, deref_image(defaults)) {
                    Some(e) => r == Err::<Self, BlockImageError>(e),
                    None => r matches Ok(img) && img.key_of() == key && img.atlas_offset_of() == (0u32, 0u32)
                        && img.size_of() == size && img.well_formed() && format_matches(
                        metadata.format,
                        metadata.shapes@,
                        deref_image(defaults),
                        img.format_of(),
                    ),
                },
            },
    {
        if let Some(d) = defaults {
            proof {
                use_type_invariant(d);
            }
        }
        let size = match &metadata.size {
            MetadataField::Null => match defaults {
                Some(d) => d.size,
                None => {
                    return Err(BlockImageError::MissingSize);
                },
            },
            MetadataField::Value(v) => {
                if *v == 0 {
                    return Err(BlockImageError::InvalidSize);
                }
                *v
            },
            MetadataField::Other => {
                return Err(BlockImageError::InvalidSize);
            },
        };
        let format = match &metadata.format {
            MetadataField::Null => match defaults {
                Some(d) => d.format,
                None => {
                    return Err(BlockImageError::MissingFormat);
                },
            },
            MetadataField::Value(name) => {
                if string_is(name, "single") {
                    BlockImageFormat::Single
                } else if string_is(name, "connected_simple") {
                    match parse_shape_offsets(&metadata.shapes) {
                        Ok(shape_offsets) => BlockImageFormat::ConnectedSimple { shape_offsets },
                        Err(e) => {
                            return Err(e);
                        },
                    }
                } else {
                    return Err(BlockImageError::UnrecognizedFormat(name.clone()));
                }
            },
            MetadataField::Other => {
                return Err(BlockImageError::FormatNotString);
            },
        };
        Ok(Self { key, atlas_x: 0, atlas_y: 0, size, format })
    }

    pub fn key(&self) -> (r: &str)
        ensures
            r@ == self.key_of()@,
    {
        self.key.as_str()
    }

    pub fn set_key(&mut self, key: String)
        ensures
            final(self).key_of() == key,
            final(self).atlas_offset_of() == old(self).atlas_offset_of(),
            final(self).size_of() == old(self).size_of(),
            final(self).format_of() == old(self).format_of(),
    {
        proof {
            use_type_invariant(&*self);
        }
        self.key = key;
    }

    pub fn size(&self) -> (r: u32)
        ensures
            r == self.size_of(),
            self.well_formed(),
    {
        proof {
            use_type_invariant(self);
        }
        self.size
    }

    pub fn format(&self) -> (r: BlockImageFormat)
        ensures
            r == self.format_of(),
            self.well_formed(),
    {
        proof {
            use_type_invariant(self);
        }
        self.format
    }

    /// Whether the atlas positions of all the image's pieces fit in `u32`.
    pub fn pieces_in_range(&self) -> (r: bool)
        ensures
            r == self.pieces_fit(),
    {
        match &self.format {
            BlockImageFormat::Single => true,
            BlockImageFormat::ConnectedSimple { shape_offsets } => {
                let mut i: usize = 0;
                while i < 5
                    invariant
                        i <= 5,
                        self.format == (BlockImageFormat::ConnectedSimple { shape_offsets: *shape_offsets }),
                        forall|j: int|
                            0 <= j < i ==> self.atlas_x + #[trigger] shape_offsets@[j] * self.size <= u32::MAX,
                    decreases 5 - i,
                {
                    let fits = match shape_offsets[i].checked_mul(self.size) {
                        Some(p) => self.atlas_x.checked_add(p).is_some(),
                        None => false,
                    };
                    if !fits {
                        proof {
                            assert(shape_offsets@[i as int] * self.size >= 0) by (nonlinear_arith);
                            let f = self.format_of();
                            assert(f->shape_offsets == *shape_offsets);
                            assert(self.atlas_offset_of().0 + f->shape_offsets@[i as int] * self.size_of() > u32::MAX);
                        }
                        return false;
                    }
                    i = i + 1;
                }
                true
            },
        }
    }

    /// Records where the image lies in the atlas, after checking that the
    /// region has the width of all of its pieces and the height of one.
    pub fn set_atlas_region(&mut self, atlas_region: Rectangle<u32>) -> (r: Result<(), BlockImageError>)
        requires
            old(self).size_of() * old(self).format_of().spec_shape_count() <= u32::MAX,
        ensures
            final(self).key_of() == old(self).key_of(),
            final(self).size_of() == old(self).size_of(),
            final(self).format_of() == old(self).format_of(),
            ({
                let expected_width = (old(self).size_of() * old(self).format_of().spec_shape_count()) as u32;
                let expected_height = old(self).size_of();
                if atlas_region.width_of() != expected_width || atlas_region.height_of() != expected_height {
                    &&& r == Err::<(), BlockImageError>(
                        BlockImageError::UnexpectedImageSize {
                            expected_width,
                            expected_height,
                            width: atlas_region.width_of(),
                            height: atlas_region.height_of(),
                        },
                    )
                    &&& final(self).atlas_offset_of() == old(self).atlas_offset_of()
                } else {
                    &&& r == Ok::<(), BlockImageError>(())
                    &&& final(self).atlas_offset_of() == (atlas_region.x_of(), atlas_region.y_of())
                }
            }),
    {
        let expected_width = self.size * self.format.shape_count();
        let expected_height = self.size;
        if atlas_region.width() != expected_width || atlas_region.height() != expected_height {
            return Err(
                BlockImageError::UnexpectedImageSize {
                    expected_width,
                    expected_height,
                    width: atlas_region.width(),
                    height: atlas_region.height(),
                },
            );
        }
        proof {
            use_type_invariant(&*self);
        }
        self.atlas_x = atlas_region.x();
        self.atlas_y = atlas_region.y();
        Ok(())
    }

    /// The offset, in pieces, of the piece that a quadrant shows.
    pub fn get_shape_offset(&self, x_connect: bool, y_connect: bool, diagonal_connect: bool) -> (r: u32)
        ensures
            r == self.spec_shape_offset(x_connect, y_connect, diagonal_connect),
    {
        match &self.format {
            BlockImageFormat::Single => 0,
            BlockImageFormat::ConnectedSimple { shape_offsets } => {
                let shape = if !x_connect && !y_connect {
                    SimpleShape::OutwardCorners
                } else if x_connect && !y_connect {
                    SimpleShape::Horizontal
                } else if !x_connect && y_connect {
                    SimpleShape::Vertical
                } else if diagonal_connect {
                    SimpleShape::Fill
                } else {
                    SimpleShape::InwardCorners
                };
                shape_offsets[shape.index()]
            },
        }
    }

    /// The atlas positions of the pieces shown in the four quadrants of a
    /// block (up left, up right, down left, down right), given which
    /// neighbours it connects to.
    pub fn get_quadrant_atlas_offsets(&self, neighbors: BlockNeighbors) -> (r: [(u32, u32); 4])
        requires
            self.pieces_fit(),
        ensures
            ({
                let n = neighbors;
                let (ox, oy) = self.atlas_offset_of();
                let size = self.size_of();
                &&& r@[0] == ((ox + self.spec_shape_offset(n.left, n.up, n.up_left) * size) as u32, oy)
                &&& r@[1] == ((ox + self.spec_shape_offset(n.right, n.up, n.up_right) * size) as u32, oy)
                &&& r@[2] == ((ox + self.spec_shape_offset(n.left, n.down, n.down_left) * size) as u32, oy)
                &&& r@[3] == ((ox + self.spec_shape_offset(n.right, n.down, n.down_right) * size) as u32, oy)
            }),
    {
        let ox = self.atlas_x;
        let oy = self.atlas_y;
        if let BlockImageFormat::Single = self.format {
            return [(ox, oy); 4];
        }
        let shape_offsets = [
            self.get_shape_offset(neighbors.left, neighbors.up, neighbors.up_left),
            self.get_shape_offset(neighbors.right, neighbors.up, neighbors.up_right),
            self.get_shape_offset(neighbors.left, neighbors.down, neighbors.down_left),
            self.get_shape_offset(neighbors.right, neighbors.down, neighbors.down_right),
        ];
        [
            (ox + shape_offsets[0] * self.size, oy),
            (ox + shape_offsets[1] * self.size, oy),
            (ox + shape_offsets[2] * self.size, oy),
            (ox + shape_offsets[3] * self.size, oy),
        ]
    }
}

impl Clone for BlockImage {
    fn clone(&self) -> (r: Self)
        ensures
            r.key_of()@ == self.key_of()@,
            r.atlas_offset_of() == self.atlas_offset_of(),
            r.size_of() == self.size_of(),
            r.format_of() == self.format_of(),
    {
        proof {
            use_type_invariant(self);
        }
        BlockImage {
            key: self.key.clone(),
            atlas_x: self.atlas_x,
            atlas_y: self.atlas_y,
            size: self.size,
            format: self.format,
        }
    }
}

/// The image behind an optional reference.
pub open spec fn deref_image(o: Option<&BlockImage>) -> Option<BlockImage> {
    match o {
        Some(v) => Some(*v),
        None => None,
    }
}

/// How an entity image animates: the number of frames stacked vertically
/// in the image and the time each one shows.
#[derive(Copy, Clone, Debug, PartialEq, Eq, Structural)]
pub struct ImageAnimation {
    pub frame_count: u32,
    pub frame_time: u32,
}

/// Why the animation part of entity image metadata was rejected.
#[derive(Copy, Clone, Debug, PartialEq, Eq, Structural)]
pub enum AnimationError {
    /// `animation.frame_count` is given but `animation.frame_time` is not.
    MissingFrameTime,
    /// The frame count is zero or does not divide the image height.
    InvalidFrameCount { height: u32, frame_count: u32 },
}

/// Reads the animation part of entity image metadata (`animation.frame_count`
/// and `animation.frame_time`, each read as a `u32`): without a frame count
/// the image is still; with one, the base region is the first frame, the
/// top slice of the atlas region whose height is the image height divided
/// by the frame count.
pub fn parse_image_animation(atlas_region: Rectangle<u32>, frame_count: Option<u32>, frame_time: Option<u32>) -> (r: Result<(Rectangle<u32>, Option<ImageAnimation>), AnimationError>)
    ensures
        match frame_count {
            None => r == Ok::<(Rectangle<u32>, Option<ImageAnimation>), AnimationError>(
                (atlas_region, None::<ImageAnimation>),
            ),
            Some(count) => match frame_time {
                None => r == Err::<(Rectangle<u32>, Option<ImageAnimation>), AnimationError>(
                    AnimationError::MissingFrameTime,
                ),
                Some(time) => if count == 0 || atlas_region.height_of() % count != 0 {
                    r == Err::<(Rectangle<u32>, Option<ImageAnimation>), AnimationError>(
                        AnimationError::InvalidFrameCount { height: atlas_region.height_of(), frame_count: count },
                    )
                } else {
                    r matches Ok((base, animation)) && base.x_of() == atlas_region.x_of() && base.y_of()
                        == atlas_region.y_of() && base.width_of() == atlas_region.width_of() && base.height_of() == (
                    atlas_region.height_of() / count) as u32 && animation == Some(
                        ImageAnimation { frame_count: count, frame_time: time },
                    )
                },
            },
        },
{
    match frame_count {
        None => Ok((atlas_region, None)),
        Some(count) => {
            let time = match frame_time {
                Some(t) => t,
                None => {
                    return Err(AnimationError::MissingFrameTime);
                },
            };
            let height = atlas_region.height();
            if count == 0 || height % count != 0 {
                return Err(AnimationError::InvalidFrameCount { height, frame_count: count });
            }
            let mut base = atlas_region;
            base.set_height(height / count);
            Ok((base, Some(ImageAnimation { frame_count: count, frame_time: time })))
        },
    }
}

/// The message that describes a block image error for the image `key`.
pub open spec fn block_image_message(e: BlockImageError, key: Seq<char>) -> Seq<char> {
    match e {
        BlockImageError::MissingSize => "missing size property for "@ + key,
        BlockImageError::InvalidSize => "invalid size property for "@ + key + ": must be a positive integer"@,
        BlockImageError::MissingFormat => "missing format property for "@ + key,
        BlockImageError::FormatNotString => "invalid format property for "@ + key + ": must be a string"@,
        BlockImageError::UnrecognizedFormat(name) => "invalid format property for "@ + key + ": unrecognized format '"@
            + name@ + "'"@,
        BlockImageError::ShapeNotString => "invalid shapes property for "@ + key + ": all shapes must be strings"@,
        BlockImageError::UnrecognizedShape(name) => "invalid shapes property for "@ + key + ": unrecognized shape '"@
            + name@ + "'"@,
        BlockImageError::DuplicateShape(shape) => "invalid shapes property for "@ + key + ": duplicate shape '"@
            + shape_name(shape) + "'"@,
        BlockImageError::MissingShapes => "invalid shapes property for "@ + key + ": one or more shapes missing"@,
        BlockImageError::UnexpectedImageSize { expected_width, expected_height, width, height } =>
            "unexpected image size for "@ + key + ": expected "@ + decimal_digits(expected_width as nat) + "x"@
            + decimal_digits(expected_height as nat) + ", got "@ + decimal_digits(width as nat) + "x"@
            + decimal_digits(height as nat),
    }
}

impl BlockImageError {
    /// The message that describes the error for the image `key`.
    pub fn message(&self, key: &str) -> (r: String)
        ensures
            r@ == block_image_message(*self, key@),
    {
        match self {
            BlockImageError::MissingSize => "missing size property for ".to_owned().concat(key),
            BlockImageError::InvalidSize => "invalid size property for ".to_owned().concat(key).concat(
                ": must be a positive integer",
            ),
            BlockImageError::MissingFormat => "missing format property for ".to_owned().concat(key),
            BlockImageError::FormatNotString => "invalid format property for ".to_owned().concat(key).concat(
                ": must be a string",
            ),
            BlockImageError::UnrecognizedFormat(name) => "invalid format property for ".to_owned().concat(key).concat(
                ": unrecognized format '",
            ).concat(name.as_str()).concat("'"),
            BlockImageError::ShapeNotString => "invalid shapes property for ".to_owned().concat(key).concat(
                ": all shapes must be strings",
            ),
            BlockImageError::UnrecognizedShape(name) => "invalid shapes property for ".to_owned().concat(key).concat(
                ": unrecognized shape '",
            ).concat(name.as_str()).concat("'"),
            BlockImageError::DuplicateShape(shape) => "invalid shapes property for ".to_owned().concat(key).concat(
                ": duplicate shape '",
            ).concat(shape.name()).concat("'"),
            BlockImageError::MissingShapes => "invalid shapes property for ".to_owned().concat(key).concat(
                ": one or more shapes missing",
            ),
            BlockImageError::UnexpectedImageSize { expected_width, expected_height, width, height } => {
                let ew = decimal_text(*expected_width as usize);
                let eh = decimal_text(*expected_height as usize);
                let w = decimal_text(*width as usize);
                let h = decimal_text(*height as usize);
                "unexpected image size for ".to_owned().concat(key).concat(": expected ").concat(ew.as_str()).concat(
                    "x",
                ).concat(eh.as_str()).concat(", got ").concat(w.as_str()).concat("x").concat(h.as_str())
            },
        }
    }
}

/// The message that describes an animation error for the entity image `key`.
pub open spec fn animation_message(e: AnimationError, key: Seq<char>) -> Seq<char> {
    match e {
        AnimationError::MissingFrameTime => "missing key for entity/"@ + key + ": animation.frame_time"@,
        AnimationError::InvalidFrameCount { height, frame_count } => "invalid frame count for entity/"@ + key
            + ": image height ("@ + decimal_digits(height as nat) + ") not divisible by animation.frame_count ("@
            + decimal_digits(frame_count as nat) + ")"@,
    }
}

impl AnimationError {
    /// The message that describes the error for the entity image `key`.
    pub fn message(&self, key: &str) -> (r: String)
        ensures
            r@ == animation_message(*self, key@),
    {
        match self {
            AnimationError::MissingFrameTime => "missing key for entity/".to_owned().concat(key).concat(
                ": animation.frame_time",
            ),
            AnimationError::InvalidFrameCount { height, frame_count } => {
                let h = decimal_text(*height as usize);
                let n = decimal_text(*frame_count as usize);
                "invalid frame count for entity/".to_owned().concat(key).concat(": image height (").concat(
                    h.as_str(),
                ).concat(") not divisible by animation.frame_count (").concat(n.as_str()).concat(")")
            },
        }
    }
}

/// How the `size` member of block image metadata reads: absent or null, a
/// number that fits in a `u32`, or something else.
pub open spec fn size_field(member: Option<JsonData>) -> MetadataField<u32> {
    match member {
        None => MetadataField::Null,
        Some(JsonData::Null) => MetadataField::Null,
        Some(d) => match d.unsigned_spec(u32::MAX as int) {
            Some(n) => MetadataField::Value(n as u32),
            None => MetadataField::Other,
        },
    }
}

/// The members of the `shapes` member, when it is an array.
pub open spec fn shape_items(json: JsonData) -> Seq<JsonData> {
    match json.member("shapes"@) {
        Some(JsonData::Array(items)) => items@,
        _ => Seq::empty(),
    }
}

/// Reads block image metadata from its JSON: `size` as a `u32`, `format` as
/// a string, and each member of `shapes` as a string.
pub fn block_image_metadata(json: &JsonData) -> (r: BlockImageMetadata)
    ensures
        r.size == size_field(json.member("size"@)),
        match json.member("format"@) {
            None => r.format is Null,
            Some(JsonData::Null) => r.format is Null,
            Some(JsonData::Text(s)) => r.format matches MetadataField::Value(f) && f@ == s@,
            Some(_) => r.format is Other,
        },
        r.shapes@.len() == shape_items(*json).len(),
        forall|i: int|
            0 <= i < r.shapes@.len() ==> match shape_items(*json)[i] {
                JsonData::Text(s) => #[trigger] r.shapes@[i] matches Some(t) && t@ == s@,
                _ => r.shapes@[i] is None,
            },
{
    proof {
        reveal_strlit("size");
        reveal_strlit("format");
        reveal_strlit("shapes");
    }
    let size = match json.member_value("size") {
        None => MetadataField::Null,
        Some(v) => if v.is_null() {
            MetadataField::Null
        } else {
            match v.as_u32() {
                Some(n) => MetadataField::Value(n),
                None => MetadataField::Other,
            }
        },
    };
    let format = match json.member_value("format") {
        None => MetadataField::Null,
        Some(v) => if v.is_null() {
            MetadataField::Null
        } else {
            match v.as_str() {
                Some(s) => MetadataField::Value(s.to_owned()),
                None => MetadataField::Other,
            }
        },
    };
    let items: &[JsonData] = match json.member_value("shapes") {
        Some(v) => v.members(),
        None => &[],
    };
    let mut shapes: Vec<Option<String>> = Vec::new();
    let mut i: usize = 0;
    while i < items.len()
        invariant
            i <= items@.len(),
            items@ == shape_items(*json),
            shapes@.len() == i,
            forall|k: int|
                0 <= k < i ==> match items@[k] {
                    JsonData::Text(s) => #[trigger] shapes@[k] matches Some(t) && t@ == s@,
                    _ => shapes@[k] is None,
                },
        decreases items@.len() - i,
    {
        let shape = match items[i].as_str() {
            Some(s) => Some(s.to_owned()),
            None => None,
        };
        shapes.push(shape);
        i = i + 1;
    }
    BlockImageMetadata { size, format, shapes }
}

/// The piece that a quadrant of a connected image shows. With no
/// neighbour on either side it is the outward corners piece; with a
/// neighbour on one side only it is that side's straight piece (horizontal
/// for the side along x, vertical for the one along y), whatever the
/// diagonal; with neighbours on both sides it is the fill piece when the
/// block across the corner connects too, and the inward corners piece
/// otherwise. The pieces sit at offsets 0 to 4 of the image's offsets in
/// that order: outward corners, horizontal, vertical, inward corners, fill.
pub proof fn law_quadrant_piece(img: BlockImage, x_connect: bool, y_connect: bool, diagonal_connect: bool)
    requires
        img.format_of() is ConnectedSimple,
    ensures
        ({
            let o = img.format_of()->shape_offsets@;
            let r = img.spec_shape_offset(x_connect, y_connect, diagonal_connect);
            &&& (!x_connect && !y_connect ==> r == o[0])
            &&& (x_connect && !y_connect ==> r == o[1])
            &&& (!x_connect && y_connect ==> r == o[2])
            &&& (x_connect && y_connect && !diagonal_connect ==> r == o[3])
            &&& (x_connect && y_connect && diagonal_connect ==> r == o[4])
        }),
{
}

/// The offsets read from a `shapes` list give each piece the position of
/// the member that names it: `outward_corners` at offset 0, `horizontal` at
/// 1, `vertical` at 2, `inward_corners` at 3 and `fill` at 4.
pub proof fn law_offsets_follow_names(shapes: Seq<Option<String>>, offsets: Seq<u32>, i: int)
    requires
        offsets_match(shapes, offsets),
        0 <= i < shapes.len(),
    ensures
        shapes[i] matches Some(s) && s@ == "outward_corners"@ ==> offsets[0] == i,
        shapes[i] matches Some(s) && s@ == "horizontal"@ ==> offsets[1] == i,
        shapes[i] matches Some(s) && s@ == "vertical"@ ==> offsets[2] == i,
        shapes[i] matches Some(s) && s@ == "inward_corners"@ ==> offsets[3] == i,
        shapes[i] matches Some(s) && s@ == "fill"@ ==> offsets[4] == i,
{
    reveal_strlit("outward_corners");
    reveal_strlit("horizontal");
    reveal_strlit("vertical");
    reveal_strlit("inward_corners");
    reveal_strlit("fill");
    if let Some(s) = shapes[i] {
        // The five names have five different lengths.
        if s@ == "horizontal"@ {
            assert(s@.len() != "outward_corners"@.len());
        }
        if s@ == "vertical"@ {
            assert(s@.len() != "outward_corners"@.len());
            assert(s@.len() != "horizontal"@.len());
        }
        if s@ == "inward_corners"@ {
            assert(s@.len() != "outward_corners"@.len());
            assert(s@.len() != "horizontal"@.len());
            assert(s@.len() != "vertical"@.len());
        }
        if s@ == "fill"@ {
            assert(s@.len() != "outward_corners"@.len());
            assert(s@.len() != "horizontal"@.len());
            assert(s@.len() != "vertical"@.len());
            assert(s@.len() != "inward_corners"@.len());
        }
        if member_shape(shapes, i) is Some {
            assert(offsets[shape_index(member_shape(shapes, i).unwrap())] == i);
        }
    }
}

} // verus!
