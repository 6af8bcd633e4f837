use vstd::prelude::*;
use crate::block::{select_block_index, selected_index, str_equal, BlockType};

verus! {

/// How the player moves: walking under gravity, or flying freely.
#[derive(Copy, Clone, Debug, PartialEq, Eq, Structural)]
pub enum PlayerMode {
    Normal,
    Spectating,
}

/// The mode that the mode key switches to.
pub fn toggled_mode(mode: PlayerMode) -> (r: PlayerMode)
    ensures
        r != mode,
{
    match mode {
        PlayerMode::Normal => PlayerMode::Spectating,
        PlayerMode::Spectating => PlayerMode::Normal,
    }
}

/// The block that the player holds, and the block position that mouse
/// actions last went to (while a button stays held).
#[derive(Copy, Clone, Debug)]
pub struct BlockCursor {
    pub selected_block_index: usize,
    pub last_block_pos: Option<(usize, usize)>,
}

/// What one frame's input says about blocks: whether the cycle key was
/// pressed (backwards with shift), which mouse buttons are held, the block
/// position under the cursor, and the type of the block there when its
/// chunk is loaded.
pub struct BlockInput {
    pub cycle_pressed: bool,
    pub shift_held: bool,
    pub left_held: bool,
    pub right_held: bool,
    pub middle_held: bool,
    pub block_pos: (usize, usize),
    pub hovered: Option<&'static BlockType>,
}

/// What the frame does to the world: break the block under the cursor,
/// and place a block of the type at an index of the hotbar.
#[derive(Copy, Clone, Debug, PartialEq, Eq, Structural)]
pub struct BlockActions {
    pub destroy: bool,
    pub place: Option<usize>,
}

pub open spec fn type_names(block_types: Seq<&'static BlockType>) -> Seq<Seq<char>> {
    block_types.map_values(|t: &'static BlockType| t.name@)
}

/// The first position of a name in a list of names.
pub open spec fn name_position(names: Seq<Seq<char>>, name: Seq<char>) -> int
    decreases names.len(),
{
    if names.len() == 0 {
        0
    } else if names[0] == name {
        0
    } else {
        1 + name_position(names.drop_first(), name)
    }
}

/// The selection after the cycle key: one step along the hotbar, skipping
/// air.
pub open spec fn cycled_selection(cursor: BlockCursor, input: BlockInput, names: Seq<Seq<char>>) -> int {
    if input.cycle_pressed {
        let offset: int = if input.shift_held {
            -1
        } else {
            1
        };
        selected_index(cursor.selected_block_index + offset, offset, names)
    } else {
        cursor.selected_block_index as int
    }
}

/// Whether the middle button picks the hovered block.
pub open spec fn picks(input: BlockInput) -> bool {
    input.middle_held && (input.hovered matches Some(t) && t.name@ != "air"@)
}

fn name_index(names: &[&'static BlockType], name: &str) -> (r: usize)
    requires
        type_names(names@).contains(name@),
    ensures
        r == name_position(type_names(names@), name@),
        r < names@.len(),
{
    let ghost all = type_names(names@);
    let mut i: usize = 0;
    proof {
        assert(all.skip(0) =~= all);
    }
    while i < names.len()
        invariant
            i <= names@.len(),
            all == type_names(names@),
            all.contains(name@),
            forall|j: int| 0 <= j < i ==> all[j] != name@,
            name_position(all, name@) == i + name_position(all.skip(i as int), name@),
        decreases names@.len() - i,
    {
        if str_equal(names[i].name, name) {
            proof {
                assert(all.skip(i as int)[0] == all[i as int]);
            }
            return i;
        }
        proof {
            assert(all.skip(i as int).drop_first() =~= all.skip(i + 1));
            assert(all.skip(i as int)[0] == all[i as int]);
        }
        i = i + 1;
    }
    proof {
        let j = choose|j: int| 0 <= j < all.len() && all[j] == name@;
        assert(all[j] == name@);
    }
    0
}

/// Runs one frame of block selection and mouse actions: the cycle key moves
/// the selection; while a button is held, actions go once to each new block
/// position: the middle button picks the hovered block's type (unless it is
/// air), the left one breaks the block, the right one places the selected
/// type; with no button held the position is forgotten.
pub fn step_block_cursor(cursor: &mut BlockCursor, input: &BlockInput, block_types: &[&'static BlockType]) -> (r: BlockActions)
    requires
        0 < block_types@.len() < isize::MAX,
        old(cursor).selected_block_index < block_types@.len(),
        input.hovered matches Some(t) ==> type_names(block_types@).contains(t.name@),
    ensures
        ({
            let names = type_names(block_types@);
            let cycled = cycled_selection(*old(cursor), *input, names);
            if !(input.left_held || input.right_held || input.middle_held) {
                &&& final(cursor).selected_block_index == cycled
                &&& final(cursor).last_block_pos is None
                &&& r == (BlockActions { destroy: false, place: None })
            } else if old(cursor).last_block_pos == Some(input.block_pos) {
                &&& final(cursor).selected_block_index == cycled
                &&& final(cursor).last_block_pos == old(cursor).last_block_pos
                &&& r == (BlockActions { destroy: false, place: None })
            } else {
                let selected = if picks(*input) {
                    selected_index(name_position(names, input.hovered->0.name@), 1, names)
                } else {
                    cycled
                };
                &&& final(cursor).selected_block_index == selected
                &&& final(cursor).last_block_pos == Some(input.block_pos)
                &&& r.destroy == input.left_held
                &&& r.place == if input.right_held {
                    Some(selected as usize)
                } else {
                    None
                }
            }
        }),
        final(cursor).selected_block_index < block_types@.len(),
{
    let ghost names = type_names(block_types@);
    let count = block_types.len();
    if input.cycle_pressed {
        let offset: isize = if input.shift_held {
            -1
        } else {
            1
        };
        cursor.selected_block_index = select_block_index(
            cursor.selected_block_index as isize + offset,
            offset,
            block_types,
        );
    }
    proof {
        assert(names == block_types@.map_values(|t: &'static BlockType| t.name@));
    }
    let mut actions = BlockActions { destroy: false, place: None };
    if input.left_held || input.right_held || input.middle_held {
        let fresh = match cursor.last_block_pos {
            Some(pos) => pos.0 != input.block_pos.0 || pos.1 != input.block_pos.1,
            None => true,
        };
        if fresh {
            cursor.last_block_pos = Some(input.block_pos);
            if input.middle_held {
                match input.hovered {
                    Some(t) => {
                        if !str_equal(t.name, "air") {
                            let index = name_index(block_types, t.name);
                            cursor.selected_block_index = select_block_index(index as isize, 1, block_types);
                        }
                    },
                    None => {},
                }
            }
            actions.destroy = input.left_held;
            if input.right_held {
                actions.place = Some(cursor.selected_block_index);
            }
        }
    } else {
        cursor.last_block_pos = None;
    }
    actions
}

} // verus!
