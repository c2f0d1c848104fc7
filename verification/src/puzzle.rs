//! The puzzle as this crate sees it: its identity and its catalog of twists.
//!
//! A catalog lists, for every twist, its numeric id, its name and the id of
//! its reverse. The crate looks twists up by name and by id; it never
//! computes a reverse itself.

use vstd::prelude::*;
use vstd::string::*;

use crate::text::{contains, decimal, occurs_in, push_decimal};

verus! {

/// The numeric id of a twist.
#[derive(Clone, Copy, Debug, PartialEq, Eq, Hash, Structural)]
pub struct Twist(pub u16);

/// A set of layers, one bit per layer; bit 0 is the outermost layer.
#[derive(Clone, Copy, Debug, PartialEq, Eq, Hash, Structural)]
pub struct LayerMask(pub u32);

impl Default for LayerMask {
    /// The outermost layer alone.
    fn default() -> (mask: LayerMask)
        ensures
            mask == LayerMask(1),
    {
        LayerMask(1)
    }
}

/// A twist together with the layers it turns.
#[derive(Clone, Copy, Debug, PartialEq, Eq, Hash, Structural)]
pub struct LayeredTwist {
    pub layers: LayerMask,
    pub transform: Twist,
}

/// One entry of a twist catalog.
#[derive(Clone, Debug)]
pub struct TwistInfo {
    pub id: Twist,
    pub name: String,
    pub reverse: Twist,
}

/// A puzzle's identity and its twist catalog.
#[derive(Clone, Debug)]
pub struct Puzzle {
    pub id: String,
    pub name: String,
    pub twists: Vec<TwistInfo>,
}

/// The position of the first entry at or after `from` that is named `name`.
pub open spec fn find_name(twists: Seq<TwistInfo>, name: Seq<char>, from: int) -> Option<int>
    decreases twists.len() - from,
{
    if from >= twists.len() {
        None
    } else if twists[from].name@ == name {
        Some(from)
    } else {
        find_name(twists, name, from + 1)
    }
}

/// The position of the first entry at or after `from` whose id is `id`.
pub open spec fn find_id(twists: Seq<TwistInfo>, id: Twist, from: int) -> Option<int>
    decreases twists.len() - from,
{
    if from >= twists.len() {
        None
    } else if twists[from].id == id {
        Some(from)
    } else {
        find_id(twists, id, from + 1)
    }
}

/// The name under which a twist is shown: its catalog name, or `?` and the
/// id in decimal where the catalog does not list the id.
pub open spec fn display_name(twists: Seq<TwistInfo>, id: Twist) -> Seq<char> {
    match find_id(twists, id, 0) {
        Some(i) => twists[i].name@,
        None => seq!['?'] + decimal(id.0 as nat),
    }
}

/// The display names of the twists of a move sequence, in order.
pub open spec fn display_names(twists: Seq<TwistInfo>, moves: Seq<LayeredTwist>) -> Seq<
    Seq<char>,
> {
    Seq::new(moves.len(), |i: int| display_name(twists, moves[i].transform))
}

/// `find_name` returns the first match and nothing else.
pub proof fn lemma_find_name(twists: Seq<TwistInfo>, name: Seq<char>, from: int)
    requires
        0 <= from,
    ensures
        match find_name(twists, name, from) {
            Some(i) => {
                &&& from <= i < twists.len()
                &&& twists[i].name@ == name
                &&& forall|j: int| from <= j < i ==> twists[j].name@ != name
            },
            None => forall|j: int| from <= j < twists.len() ==> twists[j].name@ != name,
        },
    decreases twists.len() - from,
{
    if from < twists.len() && twists[from].name@ != name {
        lemma_find_name(twists, name, from + 1);
    }
}

/// `find_id` returns the first match and nothing else.
pub proof fn lemma_find_id(twists: Seq<TwistInfo>, id: Twist, from: int)
    requires
        0 <= from,
    ensures
        match find_id(twists, id, from) {
            Some(i) => {
                &&& from <= i < twists.len()
                &&& twists[i].id == id
                &&& forall|j: int| from <= j < i ==> twists[j].id != id
            },
            None => forall|j: int| from <= j < twists.len() ==> twists[j].id != id,
        },
    decreases twists.len() - from,
{
    if from < twists.len() && twists[from].id != id {
        lemma_find_id(twists, id, from + 1);
    }
}

/// The dimension of the space a puzzle lives in, as far as its identifier
/// and its number of axes tell: a hypercube has 4 dimensions, any other cube
/// 3, and every other puzzle one dimension for each pair of axes.
pub open spec fn dimension_of(puzzle_id: Seq<char>, axis_count: int) -> int {
    if occurs_in(puzzle_id, "hypercube"@) {
        4
    } else if occurs_in(puzzle_id, "cube"@) {
        3
    } else {
        axis_count / 2
    }
}

/// Infers the dimension of a puzzle from its identifier and axis count.
pub fn infer_dimension(puzzle_id: &str, axis_count: usize) -> (dimension: usize)
    ensures
        dimension == dimension_of(puzzle_id@, axis_count as int),
{
    if contains(puzzle_id, "hypercube") {
        4
    } else if contains(puzzle_id, "cube") {
        3
    } else {
        axis_count / 2
    }
}

impl Puzzle {
    /// Looks a twist up by name: the first catalog entry with that name.
    pub fn twist_from_name(&self, name: &str) -> (found: Option<&TwistInfo>)
        ensures
            match find_name(self.twists@, name@, 0) {
                Some(i) => found == Some(&self.twists@[i]),
                None => found.is_none(),
            },
    {
        let wanted = String::from_str(name);
        let mut i: usize = 0;
        while i < self.twists.len()
            invariant
                i <= self.twists.len(),
                wanted@ == name@,
                find_name(self.twists@, name@, 0) == find_name(self.twists@, name@, i as int),
            decreases self.twists.len() - i,
        {
            if self.twists[i].name == wanted {
                return Some(&self.twists[i]);
            }
            i = i + 1;
        }
        None
    }

    /// The id of the twist named `name`, if the catalog has one.
    pub fn id_from_name(&self, name: &str) -> (found: Option<Twist>)
        ensures
            match find_name(self.twists@, name@, 0) {
                Some(i) => found == Some(self.twists@[i].id),
                None => found.is_none(),
            },
    {
        match self.twist_from_name(name) {
            Some(info) => Some(info.id),
            None => None,
        }
    }

    /// Looks a twist up by id: the first catalog entry with that id.
    pub fn twist_from_id(&self, id: Twist) -> (found: Option<&TwistInfo>)
        ensures
            match find_id(self.twists@, id, 0) {
                Some(i) => found == Some(&self.twists@[i]),
                None => found.is_none(),
            },
    {
        let mut i: usize = 0;
        while i < self.twists.len()
            invariant
                i <= self.twists.len(),
                find_id(self.twists@, id, 0) == find_id(self.twists@, id, i as int),
            decreases self.twists.len() - i,
        {
            if self.twists[i].id == id {
                return Some(&self.twists[i]);
            }
            i = i + 1;
        }
        None
    }

    /// The name under which the twist `id` is shown.
    pub fn twist_name(&self, id: Twist) -> (name: String)
        ensures
            name@ == display_name(self.twists@, id),
    {
        match self.twist_from_id(id) {
            Some(info) => info.name.clone(),
            None => {
                proof {
                    reveal_strlit("?");
                }
                let mut name = String::from_str("?");
                assert(name@ =~= seq!['?']);
                push_decimal(&mut name, id.0 as usize);
                name
            },
        }
    }

    /// The display names of a move sequence, in order.
    pub fn move_names(&self, move_sequence: &[LayeredTwist]) -> (names: Vec<String>)
        ensures
            names@.len() == move_sequence@.len(),
            forall|i: int|
                0 <= i < names@.len() ==> (#[trigger] names@[i])@ == display_name(
                    self.twists@,
                    move_sequence@[i].transform,
                ),
    {
        let mut names: Vec<String> = Vec::new();
        let mut i: usize = 0;
        while i < move_sequence.len()
            invariant
                i <= move_sequence.len(),
                names@.len() == i,
                forall|k: int|
                    0 <= k < i ==> (#[trigger] names@[k])@ == display_name(
                        self.twists@,
                        move_sequence@[k].transform,
                    ),
            decreases move_sequence.len() - i,
        {
            names.push(self.twist_name(move_sequence[i].transform));
            i = i + 1;
        }
        names
    }
}

} // verus!
