use vstd::prelude::*;
use crate::block::{str_equal, AttributeType, AttributeValue, Block, BlockType};
use crate::json_data::JsonData;
use crate::words::chars_of;

verus! {

/// Two attribute values are the same value of the same kind.
pub open spec fn same_value(a: AttributeValue, b: AttributeValue) -> bool {
    match (a, b) {
        (AttributeValue::Bool(x), AttributeValue::Bool(y)) => x == y,
        (AttributeValue::U8(x), AttributeValue::U8(y)) => x == y,
        (AttributeValue::I8(x), AttributeValue::I8(y)) => x == y,
        (AttributeValue::U32(x), AttributeValue::U32(y)) => x == y,
        (AttributeValue::I32(x), AttributeValue::I32(y)) => x == y,
        (AttributeValue::String(x), AttributeValue::String(y)) => x@ == y@,
        _ => false,
    }
}

fn values_equal(a: &AttributeValue, b: &AttributeValue) -> (r: bool)
    ensures
        r == same_value(*a, *b),
{
    match (a, b) {
        (AttributeValue::Bool(x), AttributeValue::Bool(y)) => *x == *y,
        (AttributeValue::U8(x), AttributeValue::U8(y)) => *x == *y,
        (AttributeValue::I8(x), AttributeValue::I8(y)) => *x == *y,
        (AttributeValue::U32(x), AttributeValue::U32(y)) => *x == *y,
        (AttributeValue::I32(x), AttributeValue::I32(y)) => *x == *y,
        (AttributeValue::String(x), AttributeValue::String(y)) => str_equal(x.as_str(), y.as_str()),
        _ => false,
    }
}

/// The attribute values that a block state asks for, by attribute index.
pub struct Condition {
    pub attributes: Vec<(usize, AttributeValue)>,
}

/// A block meets a condition when each named attribute has the asked value.
pub open spec fn meets(block: Block, attributes: Seq<(usize, AttributeValue)>) -> bool {
    forall|i: int|
        0 <= i < attributes.len() ==> same_value(block.attributes@[#[trigger] attributes[i].0 as int], attributes[i].1)
}

/// The condition's attribute indices are attributes of the block.
pub open spec fn indices_within(block: Block, attributes: Seq<(usize, AttributeValue)>) -> bool {
    forall|i: int| 0 <= i < attributes.len() ==> #[trigger] attributes[i].0 < block.attributes@.len()
}

impl Condition {
    /// Whether a block has every attribute value the condition asks for.
    pub fn accepts(&self, block: &Block) -> (r: bool)
        requires
            indices_within(*block, self.attributes@),
        ensures
            r == meets(*block, self.attributes@),
    {
        let mut i: usize = 0;
        while i < self.attributes.len()
            invariant
                i <= self.attributes@.len(),
                indices_within(*block, self.attributes@),
                forall|j: int|
                    0 <= j < i ==> same_value(block.attributes@[#[trigger] self.attributes@[j].0 as int], self.attributes@[j].1),
            decreases self.attributes@.len() - i,
        {
            let (index, ref wanted) = self.attributes[i];
            if !values_equal(&block.attributes[index], wanted) {
                return false;
            }
            i = i + 1;
        }
        true
    }
}

/// The images that one block state shows, one chosen per block position.
pub struct ImageSelector<I> {
    pub images: Vec<I>,
}

/// Which image a block position gets from a position hash: the only one, or
/// the hash's pick among several.
pub open spec fn selected_image(count: nat, hash: u64) -> int {
    if count == 1 {
        0
    } else {
        (hash as usize) as int % (count as int)
    }
}

impl<I> ImageSelector<I> {
    pub fn select_image(&self, hash: u64) -> (r: &I)
        requires
            self.images@.len() > 0,
        ensures
            *r == self.images@[selected_image(self.images@.len(), hash)],
    {
        if self.images.len() == 1 {
            &self.images[0]
        } else {
            &self.images[(hash as usize) % self.images.len()]
        }
    }
}

/// How a block type looks: its states in order, each a condition and the
/// images it shows.
pub struct BlockAppearance<I> {
    pub states: Vec<(Condition, ImageSelector<I>)>,
}

/// The first state whose condition a block meets, among the first `n`.
pub open spec fn first_met<I>(states: Seq<(Condition, ImageSelector<I>)>, block: Block, n: int) -> Option<int>
    decreases n,
{
    if n <= 0 {
        None
    } else {
        match first_met(states, block, n - 1) {
            Some(i) => Some(i),
            None => if meets(block, states[n - 1].0.attributes@) {
                Some(n - 1)
            } else {
                None
            },
        }
    }
}

proof fn lemma_first_met_stays<I>(states: Seq<(Condition, ImageSelector<I>)>, block: Block, k: int, m: int)
    requires
        0 < k <= m,
        first_met(states, block, k) is Some,
    ensures
        first_met(states, block, m) == first_met(states, block, k),
    decreases m - k,
{
    if m > k {
        lemma_first_met_stays(states, block, k, m - 1);
    }
}

impl<I> BlockAppearance<I> {
    /// The image of the first state that the block meets, chosen by the
    /// block position's hash; none when no state fits.
    pub fn get_image(&self, block: &Block, hash: u64) -> (r: Option<&I>)
        requires
            forall|i: int|
                0 <= i < self.states@.len() ==> #[trigger] self.states@[i].1.images@.len() > 0 && indices_within(
                    *block,
                    self.states@[i].0.attributes@,
                ),
        ensures
            match first_met(self.states@, *block, self.states@.len() as int) {
                Some(i) => r matches Some(image) && *image == self.states@[i].1.images@[selected_image(
                    self.states@[i].1.images@.len(),
                    hash,
                )],
                None => r is None,
            },
    {
        let mut i: usize = 0;
        while i < self.states.len()
            invariant
                i <= self.states@.len(),
                forall|j: int|
                    0 <= j < self.states@.len() ==> #[trigger] self.states@[j].1.images@.len() > 0 && indices_within(
                        *block,
                        self.states@[j].0.attributes@,
                    ),
                first_met(self.states@, *block, i as int) is None,
            decreases self.states@.len() - i,
        {
            let (condition, selector) = &self.states[i];
            proof {
                assert(self.states@[i as int].1.images@.len() > 0);
            }
            if condition.accepts(block) {
                proof {
                    lemma_first_met_stays(self.states@, *block, i + 1, self.states@.len() as int);
                }
                return Some(selector.select_image(hash));
            }
            i = i + 1;
        }
        None
    }
}

/// What one attribute value in block state data can be read as, by kind.
pub struct AttributeInput {
    pub as_bool: Option<bool>,
    pub as_u8: Option<u8>,
    pub as_i8: Option<i8>,
    pub as_u32: Option<u32>,
    pub as_i32: Option<i32>,
    pub as_str: Option<String>,
}

/// The position of the first name in `names` equal to `name`, if any.
pub open spec fn position_of(names: Seq<Seq<char>>, name: Seq<char>) -> Option<int>
    decreases names.len(),
{
    if names.len() == 0 {
        None
    } else if names[0] == name {
        Some(0)
    } else {
        match position_of(names.drop_first(), name) {
            Some(i) => Some(i + 1),
            None => None,
        }
    }
}

pub open spec fn str_views(names: Seq<&'static str>) -> Seq<Seq<char>> {
    names.map_values(|n: &'static str| n@)
}

fn find_name(names: &[&'static str], name: &str) -> (r: Option<usize>)
    ensures
        r matches Some(i) ==> Some(i as int) == position_of(str_views(names@), name@),
        r is None ==> position_of(str_views(names@), name@) is None,
{
    let ghost all = str_views(names@);
    let mut i: usize = 0;
    proof {
        assert(all.skip(0) =~= all);
    }
    while i < names.len()
        invariant
            i <= names@.len(),
            all == str_views(names@),
            position_of(all, name@) == match position_of(all.skip(i as int), name@) {
                Some(k) => Some(k + i),
                None => None,
            },
        decreases names@.len() - i,
    {
        proof {
            assert(all.skip(i as int)[0] == all[i as int]);
            assert(all.skip(i as int).drop_first() =~= all.skip(i + 1));
        }
        if str_equal(names[i], name) {
            return Some(i);
        }
        i = i + 1;
    }
    None
}

/// The value that state data gives an attribute of a type: the reading of
/// its kind; an enum attribute takes the index of the variant whose name
/// the data gives.
pub open spec fn attribute_reading(attribute_type: AttributeType, value: AttributeInput) -> Option<AttributeValue> {
    match attribute_type {
        AttributeType::Bool(_) => match value.as_bool {
            Some(b) => Some(AttributeValue::Bool(b)),
            None => None,
        },
        AttributeType::U8(_) => match value.as_u8 {
            Some(n) => Some(AttributeValue::U8(n)),
            None => None,
        },
        AttributeType::I8(_) => match value.as_i8 {
            Some(n) => Some(AttributeValue::I8(n)),
            None => None,
        },
        AttributeType::U32(_) => match value.as_u32 {
            Some(n) => Some(AttributeValue::U32(n)),
            None => None,
        },
        AttributeType::I32(_) => match value.as_i32 {
            Some(n) => Some(AttributeValue::I32(n)),
            None => None,
        },
        AttributeType::String(_) => match value.as_str {
            Some(s) => Some(AttributeValue::String(s)),
            None => None,
        },
        AttributeType::Enum(_, names) => match value.as_str {
            Some(s) => match position_of(str_views(names@), s@) {
                Some(i) => Some(AttributeValue::U8(i as u8)),
                None => None,
            },
            None => None,
        },
    }
}

/// Reads an attribute value of the given type from state data.
pub fn parse_attribute_value(attribute_type: &AttributeType, value: &AttributeInput) -> (r: Option<AttributeValue>)
    ensures
        match attribute_reading(*attribute_type, *value) {
            Some(v) => r matches Some(x) && same_value(x, v),
            None => r is None,
        },
{
    match attribute_type {
        AttributeType::Bool(_) => match value.as_bool {
            Some(b) => Some(AttributeValue::Bool(b)),
            None => None,
        },
        AttributeType::U8(_) => match value.as_u8 {
            Some(n) => Some(AttributeValue::U8(n)),
            None => None,
        },
        AttributeType::I8(_) => match value.as_i8 {
            Some(n) => Some(AttributeValue::I8(n)),
            None => None,
        },
        AttributeType::U32(_) => match value.as_u32 {
            Some(n) => Some(AttributeValue::U32(n)),
            None => None,
        },
        AttributeType::I32(_) => match value.as_i32 {
            Some(n) => Some(AttributeValue::I32(n)),
            None => None,
        },
        AttributeType::String(_) => match &value.as_str {
            Some(s) => Some(AttributeValue::String(s.as_str().to_owned())),
            None => None,
        },
        AttributeType::Enum(_, names) => match &value.as_str {
            Some(s) => match find_name(names, s.as_str()) {
                Some(i) => Some(AttributeValue::U8(i as u8)),
                None => None,
            },
            None => None,
        },
    }
}

/// Why a block state's condition was rejected.
pub enum ConditionError {
    /// The block type has no attribute of this name.
    NoSuchAttribute(String),
    /// The value given for this attribute is not of the attribute's kind.
    WrongKind(String),
}

pub open spec fn attribute_names(block_type: &BlockType) -> Seq<Seq<char>> {
    block_type.attributes@.map_values(|a: (&'static str, AttributeType)| a.0@)
}

/// What one `name: value` entry of a condition reads as.
pub open spec fn entry_reading(block_type: &BlockType, entry: (String, AttributeInput)) -> Option<(usize, AttributeValue)> {
    match position_of(attribute_names(block_type), entry.0@) {
        Some(i) => match attribute_reading(block_type.attributes@[i].1, entry.1) {
            Some(v) => Some((i as usize, v)),
            None => None,
        },
        None => None,
    }
}

/// The first entry among the first `n` that does not read.
pub open spec fn first_bad_entry(block_type: &BlockType, entries: Seq<(String, AttributeInput)>, n: int) -> Option<int>
    decreases n,
{
    if n <= 0 {
        None
    } else {
        match first_bad_entry(block_type, entries, n - 1) {
            Some(i) => Some(i),
            None => if entry_reading(block_type, entries[n - 1]) is None {
                Some(n - 1)
            } else {
                None
            },
        }
    }
}

proof fn lemma_bad_entry_stays(block_type: &BlockType, entries: Seq<(String, AttributeInput)>, k: int, m: int)
    requires
        0 < k <= m,
        first_bad_entry(block_type, entries, k) is Some,
    ensures
        first_bad_entry(block_type, entries, m) == first_bad_entry(block_type, entries, k),
    decreases m - k,
{
    if m > k {
        lemma_bad_entry_stays(block_type, entries, k, m - 1);
    }
}

fn attribute_index(block_type: &BlockType, name: &str) -> (r: Option<usize>)
    ensures
        r matches Some(i) ==> Some(i as int) == position_of(attribute_names(block_type), name@) && i
            < block_type.attributes@.len(),
        r is None ==> position_of(attribute_names(block_type), name@) is None,
{
    let ghost all = attribute_names(block_type);
    let mut i: usize = 0;
    proof {
        assert(all.skip(0) =~= all);
    }
    while i < block_type.attributes.len()
        invariant
            i <= block_type.attributes@.len(),
            all == attribute_names(block_type),
            position_of(all, name@) == match position_of(all.skip(i as int), name@) {
                Some(k) => Some(k + i),
                None => None,
            },
        decreases block_type.attributes@.len() - i,
    {
        proof {
            assert(all.skip(i as int)[0] == all[i as int]);
            assert(all.skip(i as int).drop_first() =~= all.skip(i + 1));
        }
        if str_equal(block_type.attributes[i].0, name) {
            return Some(i);
        }
        i = i + 1;
    }
    None
}

/// Reads a condition from its `name: value` entries, in order; the first
/// entry that names no attribute of the block type, or gives a value of the
/// wrong kind, is rejected.
pub fn parse_condition(entries: &Vec<(String, AttributeInput)>, block_type: &BlockType) -> (r: Result<Condition, ConditionError>)
    ensures
        match first_bad_entry(block_type, entries@, entries@.len() as int) {
            Some(i) => match r {
                Err(ConditionError::NoSuchAttribute(name)) => name@ == entries@[i].0@ && position_of(
                    attribute_names(block_type),
                    entries@[i].0@,
                ) is None,
                Err(ConditionError::WrongKind(name)) => name@ == entries@[i].0@ && position_of(
                    attribute_names(block_type),
                    entries@[i].0@,
                ) is Some,
                Ok(_) => false,
            },
            None => r matches Ok(c) && c.attributes@.len() == entries@.len() && forall|i: int|
                0 <= i < entries@.len() ==> {
                    let want = entry_reading(block_type, #[trigger] entries@[i])->0;
                    &&& c.attributes@[i].0 == want.0
                    &&& same_value(c.attributes@[i].1, want.1)
                },
        },
{
    let mut attributes: Vec<(usize, AttributeValue)> = Vec::new();
    let mut i: usize = 0;
    while i < entries.len()
        invariant
            i <= entries@.len(),
            first_bad_entry(block_type, entries@, i as int) is None,
            attributes@.len() == i,
            forall|j: int|
                0 <= j < i ==> {
                    let want = entry_reading(block_type, #[trigger] entries@[j])->0;
                    &&& attributes@[j].0 == want.0
                    &&& same_value(attributes@[j].1, want.1)
                },
        decreases entries@.len() - i,
    {
        let (name, value) = &entries[i];
        let index = match attribute_index(block_type, name.as_str()) {
            Some(index) => index,
            None => {
                proof {
                    lemma_bad_entry_stays(block_type, entries@, i + 1, entries@.len() as int);
                }
                return Err(ConditionError::NoSuchAttribute(name.as_str().to_owned()));
            },
        };
        let parsed = parse_attribute_value(&block_type.attributes[index].1, value);
        match parsed {
            Some(v) => {
                attributes.push((index, v));
            },
            None => {
                proof {
                    lemma_bad_entry_stays(block_type, entries@, i + 1, entries@.len() as int);
                }
                return Err(ConditionError::WrongKind(name.as_str().to_owned()));
            },
        }
        i = i + 1;
    }
    Ok(Condition { attributes })
}

/// `input` is what `value` reads as, by kind, as the `json` crate reads a
/// value: a boolean, a number without exponent in range of each integer
/// type, or a string.
pub open spec fn reads_as(value: JsonData, input: AttributeInput) -> bool {
    &&& input.as_bool == match value {
        JsonData::Bool(b) => Some(b),
        _ => None,
    }
    &&& input.as_u8 == match value.unsigned_spec(u8::MAX as int) {
        Some(v) => Some(v as u8),
        None => None::<u8>,
    }
    &&& input.as_i8 == match value.signed_spec(i8::MIN as int, i8::MAX as int) {
        Some(v) => Some(v as i8),
        None => None::<i8>,
    }
    &&& input.as_u32 == match value.unsigned_spec(u32::MAX as int) {
        Some(v) => Some(v as u32),
        None => None::<u32>,
    }
    &&& input.as_i32 == match value.signed_spec(i32::MIN as int, i32::MAX as int) {
        Some(v) => Some(v as i32),
        None => None::<i32>,
    }
    &&& match value {
        JsonData::Text(s) => input.as_str matches Some(t) && t@ == s@,
        _ => input.as_str is None,
    }
}

/// What a JSON value can be read as, by kind.
pub fn attribute_input(value: &JsonData) -> (r: AttributeInput)
    ensures
        reads_as(*value, r),
{
    let as_str = match value.as_str() {
        Some(s) => Some(s.to_owned()),
        None => None,
    };
    AttributeInput {
        as_bool: value.as_bool(),
        as_u8: value.as_u8(),
        as_i8: value.as_i8(),
        as_u32: value.as_u32(),
        as_i32: value.as_i32(),
        as_str,
    }
}

/// The entries of a block state's `condition` object, in order, each value
/// read by kind; none when the condition is absent or not an object.
pub fn condition_entries(state: &JsonData) -> (r: Vec<(String, AttributeInput)>)
    ensures
        ({
            let entries = match state.member("condition"@) {
                Some(JsonData::Object(e)) => e@,
                _ => Seq::empty(),
            };
            &&& r@.len() == entries.len()
            &&& forall|i: int|
                0 <= i < r@.len() ==> (#[trigger] r@[i]).0@ == entries[i].0@ && reads_as(entries[i].1, r@[i].1)
        }),
{
    proof {
        reveal_strlit("condition");
    }
    let entries: &[(String, JsonData)] = match state.member_value("condition") {
        Some(c) => c.entries(),
        None => &[],
    };
    let ghost want = match state.member("condition"@) {
        Some(JsonData::Object(e)) => e@,
        _ => Seq::<(String, JsonData)>::empty(),
    };
    let mut out: Vec<(String, AttributeInput)> = Vec::new();
    let mut i: usize = 0;
    while i < entries.len()
        invariant
            i <= entries@.len(),
            entries@ == want,
            out@.len() == i,
            forall|k: int|
                0 <= k < i ==> (#[trigger] out@[k]).0@ == want[k].0@ && reads_as(want[k].1, out@[k].1),
        decreases entries@.len() - i,
    {
        let name = entries[i].0.clone();
        let input = attribute_input(&entries[i].1);
        out.push((name, input));
        i = i + 1;
    }
    out
}

/// `s` with every occurrence of `pat` replaced by `rep`, taking occurrences
/// from the left without overlap.
pub open spec fn replaced(s: Seq<char>, pat: Seq<char>, rep: Seq<char>) -> Seq<char>
    decreases s.len(),
{
    if pat.len() == 0 || s.len() < pat.len() {
        s
    } else if s.take(pat.len() as int) == pat {
        rep + replaced(s.skip(pat.len() as int), pat, rep)
    } else {
        seq![s[0]] + replaced(s.skip(1), pat, rep)
    }
}

/// An image key with every `{block_type}` in it replaced by the block type's
/// name.
pub open spec fn image_key_for(key: Seq<char>, block_type_name: Seq<char>) -> Seq<char> {
    replaced(key, "{block_type}"@, block_type_name)
}

/// Whether `pat` occurs in `s` at position `i`.
fn occurs_at(s: &Vec<char>, pat: &Vec<char>, i: usize) -> (r: bool)
    requires
        i + pat@.len() <= s@.len(),
    ensures
        r == (s@.subrange(i as int, i + pat@.len()) == pat@),
{
    let mut j: usize = 0;
    while j < pat.len()
        invariant
            j <= pat@.len(),
            i + pat@.len() <= s.len(),
            forall|k: int| 0 <= k < j ==> s@[i + k] == pat@[k],
        decreases pat@.len() - j,
    {
        if s[i + j] != pat[j] {
            proof {
                assert(s@.subrange(i as int, i + pat@.len())[j as int] != pat@[j as int]);
            }
            return false;
        }
        j = j + 1;
    }
    assert(s@.subrange(i as int, i + pat@.len()) =~= pat@);
    true
}

/// `text` with every occurrence of the non-empty `pat` replaced by `rep`.
fn replace_all(text: &str, pat: &str, rep: &str) -> (r: String)
    requires
        pat@.len() > 0,
    ensures
        r@ == replaced(text@, pat@, rep@),
{
    let s = chars_of(text);
    let p = chars_of(pat);
    let n = s.len();
    let m = p.len();
    let mut out = String::new();
    let mut start: usize = 0;
    let mut i: usize = 0;
    proof {
        assert(s@.skip(0) =~= s@);
        assert(out@ + s@.subrange(0, 0) =~= Seq::<char>::empty());
    }
    while m <= n - i
        invariant
            s@ == text@,
            p@ == pat@,
            n == s@.len(),
            m == p@.len(),
            m > 0,
            start <= i <= n,
            out@ + s@.subrange(start as int, i as int) + replaced(s@.skip(i as int), p@, rep@) == replaced(
                s@,
                p@,
                rep@,
            ),
        decreases n - i,
    {
        let ghost rest = s@.skip(i as int);
        if occurs_at(&s, &p, i) {
            proof {
                assert(rest.take(m as int) =~= s@.subrange(i as int, i + m));
                assert(rest.skip(m as int) =~= s@.skip(i + m));
                assert(replaced(rest, p@, rep@) == rep@ + replaced(s@.skip(i + m), p@, rep@));
            }
            let piece = text.substring_char(start, i);
            let mut joined = out.concat(piece);
            joined = joined.concat(rep);
            out = joined;
            proof {
                assert(s@.subrange(i + m, i + m) =~= Seq::<char>::empty());
                assert(out@ + s@.subrange((i + m) as int, (i + m) as int) =~= out@);
            }
            i = i + m;
            start = i;
        } else {
            proof {
                assert(rest.take(m as int) =~= s@.subrange(i as int, i + m));
                assert(rest.skip(1) =~= s@.skip(i + 1));
                assert(rest[0] == s@[i as int]);
                assert(s@.subrange(start as int, i + 1) =~= s@.subrange(start as int, i as int) + seq![s@[i as int]]);
            }
            i = i + 1;
        }
    }
    proof {
        assert(replaced(s@.skip(i as int), p@, rep@) == s@.skip(i as int));
        assert(s@.subrange(start as int, i as int) + s@.skip(i as int) =~= s@.subrange(start as int, n as int));
    }
    let tail = text.substring_char(start, n);
    out.concat(tail)
}

/// Why the image keys of a block state were rejected.
#[derive(Copy, Clone, Debug, PartialEq, Eq, Structural)]
pub enum ImageKeyError {
    /// A member of the `images` list is not a string.
    NotString,
    /// The `images` list is missing or empty.
    NoKeys,
}

/// The message for an image key error of block type `name`.
pub open spec fn image_key_message(e: ImageKeyError, name: Seq<char>) -> Seq<char> {
    match e {
        ImageKeyError::NotString => "all image keys for block type '"@ + name + "' must be strings"@,
        ImageKeyError::NoKeys => "expected a list of one or more image keys for block type '"@ + name + "'"@,
    }
}

impl ImageKeyError {
    pub fn message(&self, block_type_name: &str) -> (r: String)
        ensures
            r@ == image_key_message(*self, block_type_name@),
    {
        let (head, tail) = match self {
            ImageKeyError::NotString => ("all image keys for block type '", "' must be strings"),
            ImageKeyError::NoKeys => ("expected a list of one or more image keys for block type '", "'"),
        };
        head.to_owned().concat(block_type_name).concat(tail)
    }
}

/// The members of a block state's `images` list (none when it is missing or
/// not a list).
pub open spec fn image_members(state: JsonData) -> Seq<JsonData> {
    match state.member("images"@) {
        Some(JsonData::Array(items)) => items@,
        _ => Seq::empty(),
    }
}

/// The image keys of a block state for block type `block_type_name`: each
/// member of its `images` list, with `{block_type}` replaced by the name, or
/// `None` for a member that is not a string; an error when the list is
/// missing or empty.
pub fn state_image_keys(state: &JsonData, block_type_name: &str) -> (r: Result<Vec<Option<String>>, ImageKeyError>)
    ensures
        image_members(*state).len() == 0 <==> r == Err::<Vec<Option<String>>, ImageKeyError>(ImageKeyError::NoKeys),
        r matches Ok(keys) ==> keys@.len() == image_members(*state).len() && forall|i: int|
            0 <= i < keys@.len() ==> match image_members(*state)[i] {
                JsonData::Text(k) => #[trigger] keys@[i] matches Some(key) && key@ == image_key_for(
                    k@,
                    block_type_name@,
                ),
                _ => keys@[i] is None,
            },
{
    let members: &[JsonData] = match state.member_value("images") {
        Some(list) => list.members(),
        None => &[],
    };
    assert(members@ == image_members(*state));
    if members.len() == 0 {
        return Err(ImageKeyError::NoKeys);
    }
    let pattern = "{block_type}";
    proof {
        reveal_strlit("{block_type}");
    }
    let mut keys: Vec<Option<String>> = Vec::new();
    let mut i: usize = 0;
    while i < members.len()
        invariant
            i <= members@.len(),
            members@ == image_members(*state),
            pattern@ == "{block_type}"@,
            pattern@.len() > 0,
            keys@.len() == i,
            forall|j: int|
                0 <= j < i ==> match members@[j] {
                    JsonData::Text(k) => #[trigger] keys@[j] matches Some(key) && key@ == image_key_for(
                        k@,
                        block_type_name@,
                    ),
                    _ => keys@[j] is None,
                },
        decreases members@.len() - i,
    {
        let key = match members[i].as_str() {
            Some(text) => Some(replace_all(text, pattern, block_type_name)),
            None => None,
        };
        keys.push(key);
        i = i + 1;
    }
    Ok(keys)
}

/// A condition holds of a block exactly when every attribute it lists has
/// the asked value: one listed attribute with another value is enough to
/// refuse the block, and a block with all of them is accepted.
pub proof fn law_condition_needs_every_attribute(block: Block, attributes: Seq<(usize, AttributeValue)>, i: int)
    ensures
        0 <= i < attributes.len() && !same_value(block.attributes@[attributes[i].0 as int], attributes[i].1) ==> !meets(
            block,
            attributes,
        ),
        (forall|j: int|
            0 <= j < attributes.len() ==> #[trigger] same_value(block.attributes@[attributes[j].0 as int], attributes[j].1))
            ==> meets(block, attributes),
{
}

/// Two attribute values are the same value exactly when they are equal,
/// strings being compared by their text.
pub proof fn law_same_value_is_equality(a: AttributeValue, b: AttributeValue)
    ensures
        !(a is String) ==> (same_value(a, b) <==> a == b),
        (a is String && b is String) ==> (same_value(a, b) <==> a->String_0@ == b->String_0@),
        (a is String && !(b is String)) ==> !same_value(a, b),
{
}

} // verus!
