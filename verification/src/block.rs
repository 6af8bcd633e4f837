use vstd::prelude::*;
use crate::rect::Rectangle;

verus! {

/// The type of a block attribute, with its default value.
#[derive(Debug)]
pub enum AttributeType {
    Bool(bool),
    U8(u8),
    I8(i8),
    U32(u32),
    I32(i32),
    String(&'static str),
    /// The index of the default variant and the display names of the variants.
    Enum(u8, &'static [&'static str]),
}

/// The value of a block attribute.
#[derive(Clone, Debug)]
pub enum AttributeValue {
    Bool(bool),
    U8(u8),
    I8(i8),
    U32(u32),
    I32(i32),
    String(String),
}

/// `value` is the default value of an attribute of type `attribute_type`;
/// an enum attribute's value is the index of its default variant.
pub open spec fn is_default_value(attribute_type: AttributeType, value: AttributeValue) -> bool {
    match (attribute_type, value) {
        (AttributeType::Bool(b), AttributeValue::Bool(v)) => v == b,
        (AttributeType::U8(n), AttributeValue::U8(v)) => v == n,
        (AttributeType::I8(n), AttributeValue::I8(v)) => v == n,
        (AttributeType::U32(n), AttributeValue::U32(v)) => v == n,
        (AttributeType::I32(n), AttributeValue::I32(v)) => v == n,
        (AttributeType::String(s), AttributeValue::String(v)) => v@ == s@,
        (AttributeType::Enum(n, _), AttributeValue::U8(v)) => v == n,
        _ => false,
    }
}

/// How a block type decides whether it joins up with a neighbouring block
/// type when drawn.
#[derive(Copy, Clone, Debug, PartialEq, Eq, Structural)]
pub enum Connector {
    /// Joins nothing.
    Never,
    /// Joins full blocks.
    FullBlock,
    /// Joins blocks of its own type.
    SameType,
    /// Joins blocks that carry electricity: copper and gold wires and blocks,
    /// and voltagite batteries.
    Electricity,
}

/// The names of the block types that carry electricity.
pub open spec fn carries_electricity(name: Seq<char>) -> bool {
    name == "copper_wire"@ || name == "copper_block"@ || name == "gold_wire"@ || name == "gold_block"@ || name
        == "voltagite_battery"@
}

/// What right-clicking a block of a type does.
#[derive(Copy, Clone, Debug, PartialEq, Eq, Structural)]
pub enum ClickAction {
    /// Nothing.
    Nothing,
    /// The block is replaced by a block of the held type.
    PlaceHeld,
    /// The `u8` attribute at the index steps to its next value, wrapping
    /// around after the given number of values.
    CycleAttribute(usize, u8),
}

/// A kind of block. Block types are told apart by their names. A block
/// gives off `light_emission`, or, when `light_attribute` names one, the
/// value of that `u8` attribute.
#[derive(Debug)]
pub struct BlockType {
    pub name: &'static str,
    pub attributes: &'static [(&'static str, AttributeType)],
    pub colliders: &'static [Rectangle<i32>],
    pub is_full_block: bool,
    pub light_emission: u8,
    pub light_attribute: Option<usize>,
    pub connector: Connector,
    pub right_click: ClickAction,
}

/// Whether a block of type `this` joins up with a neighbour of type `that`.
pub open spec fn joins(this: &BlockType, that: &BlockType) -> bool {
    match this.connector {
        Connector::Never => false,
        Connector::FullBlock => that.is_full_block,
        Connector::SameType => that.name@ == this.name@,
        Connector::Electricity => carries_electricity(that.name@),
    }
}

/// Whether two strings hold the same text.
pub(crate) fn str_equal(a: &str, b: &str) -> (r: bool)
    ensures
        r == (a@ == b@),
{
    let a_owned = a.to_owned();
    let b_owned = b.to_owned();
    a_owned == b_owned
}

impl BlockType {
    /// The default value of each attribute, in order.
    pub fn default_attributes(&self) -> (r: Vec<AttributeValue>)
        ensures
            r@.len() == self.attributes@.len(),
            forall|i: int| 0 <= i < r@.len() ==> is_default_value(self.attributes@[i].1, #[trigger] r@[i]),
    {
        let mut values: Vec<AttributeValue> = Vec::new();
        let mut i: usize = 0;
        while i < self.attributes.len()
            invariant
                i <= self.attributes@.len(),
                values@.len() == i,
                forall|j: int| 0 <= j < i ==> is_default_value(self.attributes@[j].1, #[trigger] values@[j]),
            decreases self.attributes@.len() - i,
        {
            let value = match &self.attributes[i].1 {
                AttributeType::Bool(b) => AttributeValue::Bool(*b),
                AttributeType::U8(n) => AttributeValue::U8(*n),
                AttributeType::I8(n) => AttributeValue::I8(*n),
                AttributeType::U32(n) => AttributeValue::U32(*n),
                AttributeType::I32(n) => AttributeValue::I32(*n),
                AttributeType::String(s) => AttributeValue::String((*s).to_owned()),
                AttributeType::Enum(n, _) => AttributeValue::U8(*n),
            };
            values.push(value);
            i = i + 1;
        }
        values
    }

    /// Whether this block type joins up with `other` when drawn.
    pub fn connects_to(&self, other: &Self) -> (r: bool)
        ensures
            r == joins(self, other),
    {
        match self.connector {
            Connector::Never => false,
            Connector::FullBlock => other.is_full_block,
            Connector::SameType => str_equal(other.name, self.name),
            Connector::Electricity => {
                str_equal(other.name, "copper_wire") || str_equal(other.name, "copper_block") || str_equal(
                    other.name,
                    "gold_wire",
                ) || str_equal(other.name, "gold_block") || str_equal(other.name, "voltagite_battery")
            },
        }
    }
}

/// A placed block: its type, its attribute values and its light levels.
#[derive(Clone, Debug)]
pub struct Block {
    pub block_type: &'static BlockType,
    pub attributes: Vec<AttributeValue>,
    pub block_light: u8,
    pub sky_light: u8,
}

impl Block {
    /// A block of the given type with its default attribute values.
    pub fn new(block_type: &'static BlockType, block_light: u8, sky_light: u8) -> (r: Self)
        ensures
            r.block_type == block_type,
            r.block_light == block_light,
            r.sky_light == sky_light,
            r.attributes@.len() == block_type.attributes@.len(),
            forall|i: int|
                0 <= i < r.attributes@.len() ==> is_default_value(block_type.attributes@[i].1, #[trigger] r.attributes@[i]),
    {
        Self { block_type, attributes: block_type.default_attributes(), block_light, sky_light }
    }

    /// The light the block gives off.
    pub fn light_emission(&self) -> (r: u8)
        requires
            self.block_type.light_attribute matches Some(i) ==> i < self.attributes@.len()
                && self.attributes@[i as int] is U8,
        ensures
            r == match self.block_type.light_attribute {
                Some(i) => self.attributes@[i as int]->U8_0,
                None => self.block_type.light_emission,
            },
    {
        match self.block_type.light_attribute {
            Some(i) => match &self.attributes[i] {
                AttributeValue::U8(v) => *v,
                _ => self.block_type.light_emission,
            },
            None => self.block_type.light_emission,
        }
    }

    /// What right-clicking the block while holding a block of type `hand`
    /// turns it into, if anything.
    pub fn right_click(&self, hand: &'static BlockType) -> (r: Option<Block>)
        requires
            self.block_type.right_click matches ClickAction::CycleAttribute(i, count) ==> i < self.attributes@.len()
                && self.attributes@[i as int] is U8 && self.attributes@[i as int]->U8_0 < u8::MAX && count > 0,
        ensures
            match self.block_type.right_click {
                ClickAction::Nothing => r is None,
                ClickAction::PlaceHeld => r matches Some(b) && b.block_type == hand && b.block_light == 0 && b.sky_light
                    == 0 && b.attributes@.len() == hand.attributes@.len() && forall|i: int|
                    0 <= i < b.attributes@.len() ==> is_default_value(hand.attributes@[i].1, #[trigger] b.attributes@[i]),
                ClickAction::CycleAttribute(i, count) => r matches Some(b) && b.block_type == self.block_type
                    && b.block_light == self.block_light && b.sky_light == self.sky_light && b.attributes@.len()
                    == self.attributes@.len() && b.attributes@[i as int] == AttributeValue::U8(
                    ((self.attributes@[i as int]->U8_0 + 1) % (count as int)) as u8,
                ) && forall|j: int| 0 <= j < b.attributes@.len() && j != i ==> #[trigger] b.attributes@[j] == self.attributes@[j],
            },
    {
        match self.block_type.right_click {
            ClickAction::Nothing => None,
            ClickAction::PlaceHeld => Some(Block::new(hand, 0, 0)),
            ClickAction::CycleAttribute(i, count) => {
                let mut block = self.clone_block();
                let value = match &self.attributes[i] {
                    AttributeValue::U8(v) => *v,
                    _ => 0,
                };
                block.attributes.set(i, AttributeValue::U8((value + 1) % count));
                Some(block)
            },
        }
    }

    /// A copy of the block.
    pub fn clone_block(&self) -> (r: Block)
        ensures
            r.block_type == self.block_type,
            r.block_light == self.block_light,
            r.sky_light == self.sky_light,
            r.attributes@ == self.attributes@,
    {
        let mut attributes: Vec<AttributeValue> = Vec::new();
        let mut i: usize = 0;
        while i < self.attributes.len()
            invariant
                i <= self.attributes@.len(),
                attributes@ == self.attributes@.take(i as int),
            decreases self.attributes@.len() - i,
        {
            let value = match &self.attributes[i] {
                AttributeValue::Bool(b) => AttributeValue::Bool(*b),
                AttributeValue::U8(n) => AttributeValue::U8(*n),
                AttributeValue::I8(n) => AttributeValue::I8(*n),
                AttributeValue::U32(n) => AttributeValue::U32(*n),
                AttributeValue::I32(n) => AttributeValue::I32(*n),
                AttributeValue::String(s) => AttributeValue::String(s.clone()),
            };
            attributes.push(value);
            proof {
                assert(attributes@ =~= self.attributes@.take(i + 1));
            }
            i = i + 1;
        }
        proof {
            assert(self.attributes@.take(i as int) =~= self.attributes@);
        }
        Block { block_type: self.block_type, attributes, block_light: self.block_light, sky_light: self.sky_light }
    }
}

/// The hotbar position that a selection lands on: `index` wrapped into the
/// list of block types, moved once more by `direction` (and wrapped again)
/// when it lands on air.
pub open spec fn selected_index(index: int, direction: int, names: Seq<Seq<char>>) -> int {
    let i = index % (names.len() as int);
    if names[i] == "air"@ {
        (i + direction) % (names.len() as int)
    } else {
        i
    }
}

/// Picks the block type at `index` (wrapped into `block_types`), skipping
/// past air in `direction`.
pub fn select_block_index(index: isize, direction: isize, block_types: &[&'static BlockType]) -> (r: usize)
    requires
        block_types@.len() > 0,
        block_types@.len() <= isize::MAX,
        block_types@[index as int % block_types@.len() as int].name@ == "air"@ ==> index as int
            % block_types@.len() as int + direction <= isize::MAX,
    ensures
        r == selected_index(index as int, direction as int, block_types@.map_values(|t: &'static BlockType| t.name@)),
{
    let count = block_types.len() as isize;
    let mut i = match index.checked_rem_euclid(count) {
        Some(m) => m,
        None => 0,
    };
    if str_equal(block_types[i as usize].name, "air") {
        i = i + direction;
        i = match i.checked_rem_euclid(count) {
            Some(m) => m,
            None => 0,
        };
    }
    i as usize
}

/// A selection never lands on air when air is on the hotbar at most once
/// and there is some other block type: the step past air reaches another
/// type.
pub proof fn law_selection_skips_air(index: int, direction: int, names: Seq<Seq<char>>)
    requires
        names.len() > 1,
        direction == 1 || direction == -1,
        forall|i: int, j: int| 0 <= i < j < names.len() && names[i] == "air"@ ==> names[j] != "air"@,
    ensures
        0 <= selected_index(index, direction, names) < names.len(),
        names[selected_index(index, direction, names)] != "air"@,
{
    let n = names.len() as int;
    let i = index % n;
    assert(0 <= i < n);
    if names[i] == "air"@ {
        let r = (i + direction) % n;
        if direction == 1 {
            if i + 1 < n {
                vstd::arithmetic::div_mod::lemma_small_mod((i + 1) as nat, n as nat);
                assert(r == i + 1);
            } else {
                assert(i + 1 == n);
                vstd::arithmetic::div_mod::lemma_mod_self_0(n);
                assert(r == 0);
            }
        } else {
            if i >= 1 {
                vstd::arithmetic::div_mod::lemma_small_mod((i - 1) as nat, n as nat);
                assert(r == i - 1);
            } else {
                assert(i - 1 == -1);
                vstd::arithmetic::div_mod::lemma_mod_add_multiples_vanish(-1, n);
                vstd::arithmetic::div_mod::lemma_small_mod((n - 1) as nat, n as nat);
                assert(r == n - 1);
            }
        }
        assert(r != i && 0 <= r < n);
        if r < i {
            assert(names[r] != "air"@ || names[i] != "air"@);
        } else {
            assert(names[i] == "air"@ ==> names[r] != "air"@);
        }
    }
}

} // verus!
