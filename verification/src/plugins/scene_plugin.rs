//! The scene: what each configured scene object becomes.

use crate::text::str_eq;
use vstd::prelude::*;

verus! {

/// What a configured scene object is built as.
#[derive(Clone, Copy, Debug, PartialEq, Eq)]
pub enum SceneObjectKind {
    /// A building block, in the roof colour or else the wall colour.
    Building {
        /// Whether it takes the roof colour.
        roof: bool,
    },
    /// A tree.
    Tree,
    /// A type the scene does not know; it is skipped with a warning.
    Unknown,
}

/// The kind of an object of type `t` with colour name `color`: a `building` takes the roof
/// colour when its colour is `roof` and the wall colour otherwise.
pub open spec fn object_kind_of(t: Seq<char>, color: Option<Seq<char>>) -> SceneObjectKind {
    if t == "building"@ {
        SceneObjectKind::Building { roof: color == Some("roof"@) }
    } else if t == "tree"@ {
        SceneObjectKind::Tree
    } else {
        SceneObjectKind::Unknown
    }
}

/// The kind of a configured object of type `object_type` and colour name `color`.
pub fn scene_object_kind(object_type: &str, color: Option<&str>) -> (r: SceneObjectKind)
    ensures
        r == object_kind_of(
            object_type@,
            match color {
                Some(c) => Some(c@),
                None => None,
            },
        ),
{
    if str_eq(object_type, "building") {
        let roof = match color {
            Some(c) => str_eq(c, "roof"),
            None => false,
        };
        SceneObjectKind::Building { roof }
    } else if str_eq(object_type, "tree") {
        SceneObjectKind::Tree
    } else {
        SceneObjectKind::Unknown
    }
}

/// Whether the built-in blocks are placed: only when the scene configures no object.
pub fn uses_default_blocks(object_count: usize) -> (r: bool)
    ensures
        r == (object_count == 0),
{
    object_count == 0
}

} // verus!
