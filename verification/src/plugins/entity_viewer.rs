//! The rows of the debug console's entity viewer: entities ordered by index, filtered by
//! text, each with the components the viewer knows.

use crate::numfmt::{decimal, format_u64};
use crate::text::{contains_text, str_contains};
use vstd::prelude::*;
use vstd::string::StringExecFns;

verus! {

/// An entity as the viewer sees it.
#[derive(Clone, Debug)]
pub struct EntityInfo {
    /// The entity, by its bits.
    pub bits: u64,
    /// Its index.
    pub index: u32,
    /// Its name, if it has one.
    pub name: Option<String>,
    /// Whether it is the player.
    pub is_player: bool,
    /// Whether it is the third-person camera.
    pub is_camera: bool,
    /// Whether it has a motion state.
    pub has_motion: bool,
    /// Whether it has a walk animation.
    pub has_walk_animation: bool,
    /// Whether it has a transform.
    pub has_transform: bool,
}

/// One row of the viewer.
#[derive(Clone, Debug)]
pub struct EntityRow {
    /// The entity, by its bits.
    pub bits: u64,
    /// `index: name`.
    pub label: String,
    /// The label followed by the number of components.
    pub text: String,
    /// Names of the entity's known components, in the viewer's order.
    pub components: Vec<&'static str>,
}

/// What `str::to_lowercase` gives for `s`.
pub uninterp spec fn lowercase(s: Seq<char>) -> Seq<char>;

/// `str::to_lowercase`: the lowercase form of `s`, by Unicode's rules. Its result is named,
/// not stated.
#[verifier::external_body]
fn to_lower(s: &str) -> (r: String)
    ensures
        r@ == lowercase(s@),
{
    s.to_lowercase()
}

/// The names of the known components of `e`, in the viewer's order.
pub open spec fn component_names(e: EntityInfo) -> Seq<Seq<char>> {
    (if e.is_player { seq!["Player"@] } else { Seq::empty() }) + (if e.is_camera {
        seq!["ThirdPersonCamera"@]
    } else {
        Seq::empty()
    }) + (if e.has_motion { seq!["CharacterMotion"@] } else { Seq::empty() }) + (if e.has_walk_animation {
        seq!["PlaceholderWalkAnimation"@]
    } else {
        Seq::empty()
    }) + (if e.has_transform { seq!["Transform"@] } else { Seq::empty() })
}

/// The place of a known component in the viewer's order: player, camera, motion, walk
/// animation, transform.
pub open spec fn component_rank(name: Seq<char>) -> int {
    if name == "Player"@ {
        0
    } else if name == "ThirdPersonCamera"@ {
        1
    } else if name == "CharacterMotion"@ {
        2
    } else if name == "PlaceholderWalkAnimation"@ {
        3
    } else {
        4
    }
}

/// The number of known components `e` has: one for each of player, camera, motion, walk
/// animation and transform that it has.
pub open spec fn flag_count(e: EntityInfo) -> nat {
    (if e.is_player { 1nat } else { 0nat }) + (if e.is_camera { 1nat } else { 0nat }) + (if e.has_motion {
        1nat
    } else {
        0nat
    }) + (if e.has_walk_animation { 1nat } else { 0nat }) + (if e.has_transform { 1nat } else { 0nat })
}

proof fn lemma_concat_contains(a: Seq<Seq<char>>, b: Seq<Seq<char>>, x: Seq<char>)
    ensures
        (a + b).contains(x) <==> (a.contains(x) || b.contains(x)),
{
    if (a + b).contains(x) {
        let i = choose|i: int| 0 <= i < (a + b).len() && (a + b)[i] == x;
        if i < a.len() {
            assert(a[i] == x);
        } else {
            assert(b[i - a.len()] == x);
        }
    }
    if a.contains(x) {
        let i = choose|i: int| 0 <= i < a.len() && a[i] == x;
        assert((a + b)[i] == x);
    }
    if b.contains(x) {
        let i = choose|i: int| 0 <= i < b.len() && b[i] == x;
        assert((a + b)[a.len() + i] == x);
    }
}

/// The components listed for an entity are exactly those it has, each named once: `Player`
/// for the player, `ThirdPersonCamera` for the camera, `CharacterMotion` for a motion state,
/// `PlaceholderWalkAnimation` for a walk animation and `Transform` for a transform. The row's
/// text shows their number.
pub proof fn law_components_match_flags(e: EntityInfo)
    ensures
        component_names(e).contains("Player"@) == e.is_player,
        component_names(e).contains("ThirdPersonCamera"@) == e.is_camera,
        component_names(e).contains("CharacterMotion"@) == e.has_motion,
        component_names(e).contains("PlaceholderWalkAnimation"@) == e.has_walk_animation,
        component_names(e).contains("Transform"@) == e.has_transform,
        forall|x: Seq<char>| #[trigger] component_names(e).contains(x) ==> x == "Player"@ || x
            == "ThirdPersonCamera"@ || x == "CharacterMotion"@ || x == "PlaceholderWalkAnimation"@ || x
            == "Transform"@,
        component_names(e).len() == flag_count(e),
        component_names(e).no_duplicates(),
        forall|a: int, b: int| 0 <= a < b < component_names(e).len() ==> component_rank(
            #[trigger] component_names(e)[a],
        ) < component_rank(#[trigger] component_names(e)[b]),
        row_text_of(e) == label_of(e) + " ("@ + decimal(flag_count(e)) + " 个组件)"@,
{
    reveal_strlit("Player");
    reveal_strlit("ThirdPersonCamera");
    reveal_strlit("CharacterMotion");
    reveal_strlit("PlaceholderWalkAnimation");
    reveal_strlit("Transform");
    let n1: Seq<Seq<char>> = if e.is_player { seq!["Player"@] } else { Seq::empty() };
    let n2: Seq<Seq<char>> = if e.is_camera { seq!["ThirdPersonCamera"@] } else { Seq::empty() };
    let n3: Seq<Seq<char>> = if e.has_motion { seq!["CharacterMotion"@] } else { Seq::empty() };
    let n4: Seq<Seq<char>> = if e.has_walk_animation { seq!["PlaceholderWalkAnimation"@] } else { Seq::empty() };
    let n5: Seq<Seq<char>> = if e.has_transform { seq!["Transform"@] } else { Seq::empty() };
    let c = component_names(e);
    assert(c == n1 + n2 + n3 + n4 + n5);
    assert("Player"@.len() == 6);
    assert("ThirdPersonCamera"@.len() == 17);
    assert("CharacterMotion"@.len() == 15);
    assert("PlaceholderWalkAnimation"@.len() == 24);
    assert("Transform"@.len() == 9);
    assert(forall|x: Seq<char>| #[trigger] n1.contains(x) ==> x == "Player"@);
    assert(forall|x: Seq<char>| #[trigger] n2.contains(x) ==> x == "ThirdPersonCamera"@);
    assert(forall|x: Seq<char>| #[trigger] n3.contains(x) ==> x == "CharacterMotion"@);
    assert(forall|x: Seq<char>| #[trigger] n4.contains(x) ==> x == "PlaceholderWalkAnimation"@);
    assert(forall|x: Seq<char>| #[trigger] n5.contains(x) ==> x == "Transform"@);
    assert forall|x: Seq<char>| c.contains(x) <==> (n1.contains(x) || n2.contains(x) || n3.contains(x)
        || n4.contains(x) || n5.contains(x)) by {
        lemma_concat_contains(n1 + n2 + n3 + n4, n5, x);
        lemma_concat_contains(n1 + n2 + n3, n4, x);
        lemma_concat_contains(n1 + n2, n3, x);
        lemma_concat_contains(n1, n2, x);
    }
    assert(n1.contains("Player"@) == e.is_player) by {
        if e.is_player {
            assert(n1[0] == "Player"@);
        }
    }
    assert(n2.contains("ThirdPersonCamera"@) == e.is_camera) by {
        if e.is_camera {
            assert(n2[0] == "ThirdPersonCamera"@);
        }
    }
    assert(n3.contains("CharacterMotion"@) == e.has_motion) by {
        if e.has_motion {
            assert(n3[0] == "CharacterMotion"@);
        }
    }
    assert(n4.contains("PlaceholderWalkAnimation"@) == e.has_walk_animation) by {
        if e.has_walk_animation {
            assert(n4[0] == "PlaceholderWalkAnimation"@);
        }
    }
    assert(n5.contains("Transform"@) == e.has_transform) by {
        if e.has_transform {
            assert(n5[0] == "Transform"@);
        }
    }
    assert forall|a: int, b: int| 0 <= a < b < c.len() implies component_rank(#[trigger] c[a]) < component_rank(
        #[trigger] c[b],
    ) by {
        let k1 = n1.len() as int;
        let k2 = k1 + n2.len();
        let k3 = k2 + n3.len();
        let k4 = k3 + n4.len();
        assert(0 <= a < k1 ==> c[a] == n1[a]);
        assert(k1 <= a < k2 ==> c[a] == n2[a - k1]);
        assert(k2 <= a < k3 ==> c[a] == n3[a - k2]);
        assert(k3 <= a < k4 ==> c[a] == n4[a - k3]);
        assert(k4 <= a ==> c[a] == n5[a - k4]);
        assert(0 <= b < k1 ==> c[b] == n1[b]);
        assert(k1 <= b < k2 ==> c[b] == n2[b - k1]);
        assert(k2 <= b < k3 ==> c[b] == n3[b - k2]);
        assert(k3 <= b < k4 ==> c[b] == n4[b - k3]);
        assert(k4 <= b ==> c[b] == n5[b - k4]);
    }
    assert forall|a: int, b: int| 0 <= a < b < c.len() implies c[a] != c[b] by {
        let la = c[a].len();
        let lb = c[b].len();
        assert(c.contains(c[a]));
        assert(c.contains(c[b]));
    }
}

/// `index: name`, with `<未命名>` for an entity without a name.
pub open spec fn label_of(e: EntityInfo) -> Seq<char> {
    decimal(e.index as nat) + ": "@ + match e.name {
        Some(n) => n@,
        None => "<未命名>"@,
    }
}

/// The text of the row of `e`: its label and its number of known components.
pub open spec fn row_text_of(e: EntityInfo) -> Seq<char> {
    label_of(e) + " ("@ + decimal(component_names(e).len()) + " 个组件)"@
}

/// Whether `e` is listed under the filter text `filter`: when the filter, lowercased, is
/// not empty, the lowercased label must contain it.
pub open spec fn is_listed(e: EntityInfo, filter: Seq<char>) -> bool {
    lowercase(filter).len() == 0 || contains_text(lowercase(label_of(e)), lowercase(filter))
}

/// `s` sorted by index with `x` placed after every entity whose index is not larger.
pub open spec fn insert_by_index(s: Seq<EntityInfo>, x: EntityInfo) -> Seq<EntityInfo>
    decreases s.len(),
{
    if s.len() == 0 {
        seq![x]
    } else if s.last().index <= x.index {
        s.push(x)
    } else {
        insert_by_index(s.drop_last(), x).push(s.last())
    }
}

/// `s` ordered by index; entities with the same index keep their order.
pub open spec fn sort_by_index(s: Seq<EntityInfo>) -> Seq<EntityInfo>
    decreases s.len(),
{
    if s.len() == 0 {
        s
    } else {
        insert_by_index(sort_by_index(s.drop_last()), s.last())
    }
}

/// The entities listed under the filter text `filter`, ordered by index.
pub open spec fn listed_entities(entities: Seq<EntityInfo>, filter: Seq<char>) -> Seq<EntityInfo> {
    sort_by_index(entities).filter(|e: EntityInfo| is_listed(e, filter))
}

/// The rows for `entities` under the filter text `filter`: bits, label, text and
/// components of each listed entity, ordered by index.
pub open spec fn rows_spec(entities: Seq<EntityInfo>, filter: Seq<char>) -> Seq<(u64, Seq<char>, Seq<char>, Seq<Seq<char>>)> {
    listed_entities(entities, filter).map_values(
        |e: EntityInfo| (e.bits, label_of(e), row_text_of(e), component_names(e)),
    )
}

/// A row as plain values.
pub open spec fn row_view(r: EntityRow) -> (u64, Seq<char>, Seq<char>, Seq<Seq<char>>) {
    (r.bits, r.label@, r.text@, r.components@.map_values(|c: &'static str| c@))
}

/// Whether the entities of `s` come in order of index.
pub open spec fn ordered_by_index(s: Seq<EntityInfo>) -> bool {
    forall|i: int, j: int| 0 <= i < j < s.len() ==> s[i].index <= s[j].index
}

proof fn lemma_insert_bounded(s: Seq<EntityInfo>, x: EntityInfo, b: int)
    requires
        forall|i: int| 0 <= i < s.len() ==> s[i].index <= b,
        x.index <= b,
    ensures
        insert_by_index(s, x).len() == s.len() + 1,
        forall|i: int| 0 <= i < insert_by_index(s, x).len() ==> insert_by_index(s, x)[i].index <= b,
    decreases s.len(),
{
    if s.len() > 0 && s.last().index > x.index {
        lemma_insert_bounded(s.drop_last(), x, b);
    }
}

proof fn lemma_insert_ordered(s: Seq<EntityInfo>, x: EntityInfo)
    requires
        ordered_by_index(s),
    ensures
        ordered_by_index(insert_by_index(s, x)),
        insert_by_index(s, x).to_multiset() == s.to_multiset().insert(x),
    decreases s.len(),
{
    broadcast use vstd::seq_lib::group_to_multiset_ensures;

    if s.len() == 0 {
        assert(seq![x] =~= s.push(x));
    } else if s.last().index <= x.index {
    } else {
        let t = s.drop_last();
        let l = s.last();
        lemma_insert_ordered(t, x);
        lemma_insert_bounded(t, x, l.index as int);
        assert(t.push(l) =~= s);
        assert(insert_by_index(t, x).push(l).to_multiset() =~= t.to_multiset().insert(x).insert(l));
        assert(s.to_multiset() =~= t.to_multiset().insert(l));
    }
}

/// The viewer lists entities in order of index, and ordering loses and adds none of them.
pub proof fn law_viewer_order(entities: Seq<EntityInfo>)
    ensures
        ordered_by_index(sort_by_index(entities)),
        sort_by_index(entities).to_multiset() == entities.to_multiset(),
    decreases entities.len(),
{
    broadcast use vstd::seq_lib::group_to_multiset_ensures;

    if entities.len() > 0 {
        law_viewer_order(entities.drop_last());
        lemma_insert_ordered(sort_by_index(entities.drop_last()), entities.last());
        assert(entities.drop_last().push(entities.last()) =~= entities);
    }
}

/// Whether a row shows entity `e`: its bits and label, a text giving the number of
/// components it has, and a component list naming exactly those components.
pub open spec fn row_shows(row: (u64, Seq<char>, Seq<char>, Seq<Seq<char>>), e: EntityInfo) -> bool {
    &&& row.0 == e.bits
    &&& row.1 == label_of(e)
    &&& row.2 == label_of(e) + " ("@ + decimal(flag_count(e)) + " 个组件)"@
    &&& row.3.len() == flag_count(e)
    &&& row.3.contains("Player"@) == e.is_player
    &&& row.3.contains("ThirdPersonCamera"@) == e.is_camera
    &&& row.3.contains("CharacterMotion"@) == e.has_motion
    &&& row.3.contains("PlaceholderWalkAnimation"@) == e.has_walk_animation
    &&& row.3.contains("Transform"@) == e.has_transform
}

proof fn lemma_filter_ordered(s: Seq<EntityInfo>, p: spec_fn(EntityInfo) -> bool)
    requires
        ordered_by_index(s),
    ensures
        ordered_by_index(s.filter(p)),
    decreases s.len(),
{
    reveal(Seq::filter);
    if s.len() > 0 {
        let t = s.drop_last();
        assert(ordered_by_index(t));
        lemma_filter_ordered(t, p);
        if p(s.last()) {
            let f = t.filter(p);
            assert forall|i: int| 0 <= i < f.len() implies f[i].index <= s.last().index by {
                assert(f.contains(f[i]));
                t.lemma_filter_contains_rev(p, f[i]);
                let j = choose|j: int| 0 <= j < t.len() && t[j] == f[i];
                assert(s[j] == t[j]);
            }
        }
    }
}

/// The viewer lists, in order of index, the given entities that the filter lets through,
/// every one of them, and each row shows its entity (the listed ones, row by row) with
/// exactly the components that entity has and their number.
pub proof fn law_rows_show_entities(entities: Seq<EntityInfo>, filter: Seq<char>)
    ensures
        rows_spec(entities, filter).len() == listed_entities(entities, filter).len(),
        ordered_by_index(listed_entities(entities, filter)),
        forall|e: EntityInfo| #[trigger] entities.contains(e) && is_listed(e, filter) ==> listed_entities(
            entities,
            filter,
        ).contains(e),
        forall|i: int| 0 <= i < rows_spec(entities, filter).len() ==> {
            let e = #[trigger] listed_entities(entities, filter)[i];
            &&& entities.contains(e)
            &&& is_listed(e, filter)
            &&& row_shows(rows_spec(entities, filter)[i], e)
        },
{
    broadcast use vstd::seq_lib::group_to_multiset_ensures;

    let keep = |e: EntityInfo| is_listed(e, filter);
    let sorted = sort_by_index(entities);
    let listed = listed_entities(entities, filter);
    assert(listed == sorted.filter(keep));
    law_viewer_order(entities);
    lemma_filter_ordered(sorted, keep);
    assert forall|e: EntityInfo| #[trigger] entities.contains(e) && is_listed(e, filter) implies listed.contains(
        e,
    ) by {
        assert(entities.to_multiset().count(e) > 0);
        assert(sorted.contains(e));
        let j = choose|j: int| 0 <= j < sorted.len() && sorted[j] == e;
        sorted.lemma_filter_contains(keep, j);
    }
    assert forall|i: int| 0 <= i < rows_spec(entities, filter).len() implies {
        let e = #[trigger] listed_entities(entities, filter)[i];
        &&& entities.contains(e)
        &&& is_listed(e, filter)
        &&& row_shows(rows_spec(entities, filter)[i], e)
    } by {
        let e = listed[i];
        sorted.lemma_filter_pred(keep, i);
        assert(listed.contains(e));
        sorted.lemma_filter_contains_rev(keep, e);
        assert(sorted.to_multiset().count(e) > 0);
        law_components_match_flags(e);
        assert(rows_spec(entities, filter)[i] == (e.bits, label_of(e), row_text_of(e), component_names(e)));
    }
}

/// Inserting at position `p`, after every entity with an index not larger than `x`'s and
/// before the others, is what `insert_by_index` does.
proof fn lemma_insert_at(s: Seq<EntityInfo>, x: EntityInfo, p: int)
    requires
        0 <= p <= s.len(),
        p > 0 ==> s[p - 1].index <= x.index,
        forall|q: int| p <= q < s.len() ==> s[q].index > x.index,
    ensures
        insert_by_index(s, x) == s.take(p).push(x) + s.skip(p),
    decreases s.len(),
{
    if s.len() == 0 {
        assert(s.take(p).push(x) + s.skip(p) =~= seq![x]);
    } else if s.last().index <= x.index {
        assert(p == s.len());
        assert(s.take(p).push(x) + s.skip(p) =~= s.push(x));
    } else {
        assert(p < s.len());
        lemma_insert_at(s.drop_last(), x, p);
        assert(s.drop_last().take(p).push(x) + s.drop_last().skip(p) + seq![s.last()] =~= s.take(p).push(x)
            + s.skip(p));
    }
}

fn component_list(e: &EntityInfo) -> (r: Vec<&'static str>)
    ensures
        r@.map_values(|c: &'static str| c@) == component_names(*e),
{
    let mut r: Vec<&'static str> = Vec::new();
    if e.is_player {
        r.push("Player");
    }
    if e.is_camera {
        r.push("ThirdPersonCamera");
    }
    if e.has_motion {
        r.push("CharacterMotion");
    }
    if e.has_walk_animation {
        r.push("PlaceholderWalkAnimation");
    }
    if e.has_transform {
        r.push("Transform");
    }
    assert(r@.map_values(|c: &'static str| c@) =~= component_names(*e));
    r
}

fn label(e: &EntityInfo) -> (r: String)
    ensures
        r@ == label_of(*e),
{
    let mut s = format_u64(e.index as u64);
    s.append(": ");
    match &e.name {
        Some(n) => s.append(n.as_str()),
        None => s.append("<未命名>"),
    }
    s
}

/// The entities ordered by index; entities with the same index keep their order.
fn sorted_by_index(entities: Vec<EntityInfo>) -> (r: Vec<EntityInfo>)
    ensures
        r@ == sort_by_index(entities@),
{
    let ghost orig = entities@;
    let n0 = entities.len();
    let mut rest = entities;
    let mut sorted: Vec<EntityInfo> = Vec::new();
    let mut i: usize = 0;
    while rest.len() > 0
        invariant
            i <= orig.len(),
            orig.len() == n0,
            rest@ == orig.skip(i as int),
            sorted@ == sort_by_index(orig.take(i as int)),
        decreases rest@.len(),
    {
        let x = rest.remove(0);
        let mut p = sorted.len();
        while p > 0 && sorted[p - 1].index > x.index
            invariant
                p <= sorted@.len(),
                forall|q: int| p <= q < sorted@.len() ==> sorted@[q].index > x.index,
            decreases p,
        {
            p = p - 1;
        }
        let ghost before = sorted@;
        proof {
            assert(x == orig[i as int]);
            lemma_insert_at(before, x, p as int);
            assert(orig.take(i + 1).drop_last() =~= orig.take(i as int));
            assert(orig.take(i + 1).last() == x);
        }
        sorted.insert(p, x);
        proof {
            assert(sorted@ =~= before.take(p as int).push(x) + before.skip(p as int));
            assert(rest@ =~= orig.skip(i + 1));
        }
        i = i + 1;
    }
    proof {
        assert(orig.take(i as int) =~= orig);
    }
    sorted
}

/// The viewer's rows for `entities` under the filter text `filter`: the entities ordered
/// by index, those whose lowercased label contains the lowercased filter (every one for an
/// empty filter), each with its label, its text and its known components.
pub fn entity_rows(entities: Vec<EntityInfo>, filter: &str) -> (r: Vec<EntityRow>)
    ensures
        r@.map_values(|x: EntityRow| row_view(x)) == rows_spec(entities@, filter@),
{
    let ghost orig = entities@;
    let sorted = sorted_by_index(entities);
    let f = to_lower(filter);
    let ghost keep = |e: EntityInfo| is_listed(e, filter@);
    let ghost row = |e: EntityInfo| (e.bits, label_of(e), row_text_of(e), component_names(e));
    let mut r: Vec<EntityRow> = Vec::new();
    let mut i: usize = 0;
    while i < sorted.len()
        invariant
            i <= sorted@.len(),
            sorted@ == sort_by_index(orig),
            f@ == lowercase(filter@),
            keep == (|e: EntityInfo| is_listed(e, filter@)),
            row == (|e: EntityInfo| (e.bits, label_of(e), row_text_of(e), component_names(e))),
            r@.map_values(|x: EntityRow| row_view(x)) == sorted@.take(i as int).filter(keep).map_values(row),
        decreases sorted@.len() - i,
    {
        let e = &sorted[i];
        let l = label(e);
        let listed = f.as_str().is_empty() || str_contains(to_lower(l.as_str()).as_str(), f.as_str());
        let ghost s1 = sorted@.take(i + 1);
        proof {
            assert(s1.drop_last() =~= sorted@.take(i as int));
            assert(s1.last() == *e);
            reveal_with_fuel(Seq::filter, 1);
            assert(s1.filter(keep) == if keep(*e) {
                sorted@.take(i as int).filter(keep).push(*e)
            } else {
                sorted@.take(i as int).filter(keep)
            });
        }
        if listed {
            let comps = component_list(e);
            let mut text = l.clone();
            text.append(" (");
            let n = format_u64(comps.len() as u64);
            text.append(n.as_str());
            text.append(" 个组件)");
            let row_value = EntityRow { bits: e.bits, label: l, text, components: comps };
            let ghost prev = r@.map_values(|x: EntityRow| row_view(x));
            r.push(row_value);
            proof {
                assert(row_view(row_value) == row(*e));
                assert(r@.map_values(|x: EntityRow| row_view(x)) =~= prev.push(row(*e)));
                assert(sorted@.take(i as int).filter(keep).push(*e).map_values(row) =~= sorted@.take(
                    i as int,
                ).filter(keep).map_values(row).push(row(*e)));
            }
        }
        i = i + 1;
    }
    proof {
        assert(sorted@.take(sorted@.len() as int) =~= sorted@);
    }
    r
}

} // verus!
