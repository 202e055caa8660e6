//! Theme style resolution.
//!
//! Elements name a style class; themes map classes to interaction styles.
//! An element resolves its class against the nearest ancestor theme that
//! knows the class, and against the default theme when none does.  Once
//! per frame the pass recomputes the style of every element affected by a
//! changed element or a changed theme.

use vstd::prelude::*;
use crate::strcoll::StrMap;
use crate::interaction_style::InteractionNodeStyle;

verus! {

/// An element styled by class (and, reserved, by identifier).
#[derive(Debug)]
pub struct ThemeElement {
    pub class: String,
    pub id: String,
}

impl ThemeElement {
    /// An element styled by class alone.
    pub fn from_class(class: String) -> (r: Self)
        ensures
            r.class == class,
            r.id@ == Seq::<char>::empty(),
    {
        ThemeElement { class, id: String::new() }
    }
}

impl Clone for ThemeElement {
    /// A clone denotes the same class and identifier.
    fn clone(&self) -> (r: Self)
        ensures
            r.class@ == self.class@,
            r.id@ == self.id@,
    {
        ThemeElement { class: self.class.clone(), id: self.id.clone() }
    }
}

/// A stylesheet from class names to interaction styles.  The default
/// theme is process-wide; further themes sit on entities and override it
/// for their subtrees.
#[derive(Debug)]
pub struct Theme {
    pub class_stylesheet: StrMap<InteractionNodeStyle>,
}

impl Theme {
    pub open spec fn wf(self) -> bool {
        self.class_stylesheet.wf()
    }

    pub fn new() -> (r: Self)
        ensures
            r.wf(),
            r.class_stylesheet@ == Map::<Seq<char>, InteractionNodeStyle>::empty(),
    {
        Theme { class_stylesheet: StrMap::new() }
    }

    /// Binds a class to a style, overriding an earlier binding.
    pub fn set_class_style(&mut self, class: String, style: InteractionNodeStyle)
        requires
            old(self).wf(),
        ensures
            final(self).wf(),
            final(self).class_stylesheet@ == old(self).class_stylesheet@.insert(class@, style),
    {
        self.class_stylesheet.insert(class, style);
    }

    /// The style the theme gives a class, if it knows the class.
    pub fn class_style(&self, class: &String) -> (r: Option<InteractionNodeStyle>)
        requires
            self.wf(),
        ensures
            match r {
                Some(s) => self.class_stylesheet@.contains_key(class@) && s
                    == self.class_stylesheet@[class@],
                None => !self.class_stylesheet@.contains_key(class@),
            },
    {
        match self.class_stylesheet.get(class) {
            Some(s) => Some(*s),
            None => None,
        }
    }
}

impl Default for Theme {
    fn default() -> (r: Self)
        ensures
            r.wf(),
            r.class_stylesheet@ == Map::<Seq<char>, InteractionNodeStyle>::empty(),
    {
        Theme::new()
    }
}

/// The scene forest, nodes ordered so that a parent comes before its
/// children.
#[derive(Debug)]
pub struct SceneTree {
    pub parent: Vec<Option<usize>>,
}

/// Parents come before their children.
pub open spec fn tree_wf(parent: Seq<Option<usize>>) -> bool {
    forall|i: int|
        0 <= i < parent.len() ==> match #[trigger] parent[i] {
            Some(p) => (p as int) < i,
            None => true,
        }
}

impl SceneTree {
    pub open spec fn wf(self) -> bool {
        tree_wf(self.parent@)
    }
}

/// Whether `anc` is a strict ancestor of `node`.
pub open spec fn is_strict_ancestor(parent: Seq<Option<usize>>, node: int, anc: int) -> bool
    decreases node,
{
    if 0 <= node < parent.len() {
        match parent[node] {
            Some(p) => if (p as int) < node && 0 <= (p as int) {
                (p as int) == anc || is_strict_ancestor(parent, p as int, anc)
            } else {
                false
            },
            None => false,
        }
    } else {
        false
    }
}

/// Whether some strict ancestor of `node` is flagged.
pub open spec fn has_flagged_ancestor(parent: Seq<Option<usize>>, flags: Seq<bool>, node: int) -> bool
    decreases node,
{
    if 0 <= node < parent.len() && parent.len() == flags.len() {
        match parent[node] {
            Some(p) => if (p as int) < node && 0 <= (p as int) {
                flags[p as int] || has_flagged_ancestor(parent, flags, p as int)
            } else {
                false
            },
            None => false,
        }
    } else {
        false
    }
}

/// Whether `node` lies in the subtree of a flagged node none of whose own
/// strict ancestors is flagged.  The pass restyles exactly the subtrees of
/// such topmost flagged themes, visiting no subtree twice.
pub open spec fn covered_by_topmost_flagged(
    parent: Seq<Option<usize>>,
    flags: Seq<bool>,
    node: int,
) -> bool {
    exists|t: int|
        0 <= t < parent.len() && flags[t] && !(#[trigger] has_flagged_ancestor(parent, flags, t))
            && (node == t || is_strict_ancestor(parent, node, t))
}

proof fn lemma_anc_flagged(parent: Seq<Option<usize>>, flags: Seq<bool>, node: int, t: int)
    requires
        parent.len() == flags.len(),
        0 <= node < parent.len(),
        is_strict_ancestor(parent, node, t),
        0 <= t < parent.len(),
        flags[t],
    ensures
        has_flagged_ancestor(parent, flags, node),
    decreases node,
{
    match parent[node] {
        Some(p) => {
            if (p as int) == t {
            } else {
                lemma_anc_flagged(parent, flags, p as int, t);
            }
        },
        None => {},
    }
}

/// A node is covered by a topmost flagged theme exactly when the node
/// itself or one of its strict ancestors is flagged.
pub proof fn lemma_topmost_cover(parent: Seq<Option<usize>>, flags: Seq<bool>, node: int)
    requires
        parent.len() == flags.len(),
        0 <= node < parent.len(),
    ensures
        covered_by_topmost_flagged(parent, flags, node) <==> (flags[node] || has_flagged_ancestor(
            parent,
            flags,
            node,
        )),
    decreases node,
{
    if flags[node] || has_flagged_ancestor(parent, flags, node) {
        if !has_flagged_ancestor(parent, flags, node) {
            assert(0 <= node < parent.len() && flags[node] && !has_flagged_ancestor(
                parent,
                flags,
                node,
            ) && (node == node || is_strict_ancestor(parent, node, node)));
        } else {
            match parent[node] {
                Some(p) => {
                    lemma_topmost_cover(parent, flags, p as int);
                    assert(flags[p as int] || has_flagged_ancestor(parent, flags, p as int));
                    assert(covered_by_topmost_flagged(parent, flags, p as int));
                    let t = choose|t: int|
                        0 <= t < parent.len() && flags[t] && !(#[trigger] has_flagged_ancestor(
                            parent,
                            flags,
                            t,
                        )) && ((p as int) == t || is_strict_ancestor(parent, p as int, t));
                    assert(is_strict_ancestor(parent, node, t));
                    assert(covered_by_topmost_flagged(parent, flags, node));
                },
                None => {},
            }
        }
    }
    if covered_by_topmost_flagged(parent, flags, node) {
        let t = choose|t: int|
            0 <= t < parent.len() && flags[t] && !(#[trigger] has_flagged_ancestor(
                parent,
                flags,
                t,
            )) && (node == t || is_strict_ancestor(parent, node, t));
        if node != t {
            lemma_anc_flagged(parent, flags, node, t);
        }
    }
}

/// The style an element with class `class` at `node` resolves to: the
/// class in the nearest strict ancestor's theme that knows it, else the
/// class in the default theme, else nothing.
pub open spec fn spec_resolve(
    parent: Seq<Option<usize>>,
    themes: Seq<Option<Theme>>,
    default_theme: Theme,
    node: int,
    class: Seq<char>,
) -> Option<InteractionNodeStyle>
    decreases node,
{
    if 0 <= node < parent.len() && parent.len() == themes.len() {
        match parent[node] {
            Some(p) => if (p as int) < node && 0 <= (p as int) {
                match themes[p as int] {
                    Some(th) => if th.class_stylesheet@.contains_key(class) {
                        Some(th.class_stylesheet@[class])
                    } else {
                        spec_resolve(parent, themes, default_theme, p as int, class)
                    },
                    None => spec_resolve(parent, themes, default_theme, p as int, class),
                }
            } else {
                spec_default_lookup(default_theme, class)
            },
            None => spec_default_lookup(default_theme, class),
        }
    } else {
        spec_default_lookup(default_theme, class)
    }
}

pub open spec fn spec_default_lookup(default_theme: Theme, class: Seq<char>) -> Option<
    InteractionNodeStyle,
> {
    if default_theme.class_stylesheet@.contains_key(class) {
        Some(default_theme.class_stylesheet@[class])
    } else {
        None
    }
}

/// Resolves a class at a node against the ancestor themes, falling back
/// to the default theme.
pub fn resolve_class_style(
    tree: &SceneTree,
    themes: &Vec<Option<Theme>>,
    default_theme: &Theme,
    node: usize,
    class: &String,
) -> (r: Option<InteractionNodeStyle>)
    requires
        tree.wf(),
        themes@.len() == tree.parent@.len(),
        node < tree.parent@.len(),
        forall|i: int| 0 <= i < themes@.len() ==> match #[trigger] themes@[i] {
            Some(th) => th.wf(),
            None => true,
        },
        default_theme.wf(),
    ensures
        r == spec_resolve(tree.parent@, themes@, *default_theme, node as int, class@),
    decreases node,
{
    match tree.parent[node] {
        Some(p) => {
            proof {
                assert(tree.parent@[node as int] == Some(p));
                assert((p as int) < node as int);
                assert(themes@[p as int] == themes@[p as int]);
            }
            let style = match &themes[p] {
                Some(th) => th.class_style(class),
                None => None,
            };
            match style {
                Some(s) => Some(s),
                None => resolve_class_style(tree, themes, default_theme, p, class),
            }
        },
        None => default_theme.class_style(class),
    }
}

/// Whether some strict ancestor of `node` is flagged; the walking twin of
/// `has_flagged_ancestor`.
pub fn ancestor_flagged(tree: &SceneTree, flags: &Vec<bool>, node: usize) -> (r: bool)
    requires
        tree.wf(),
        flags@.len() == tree.parent@.len(),
        node < tree.parent@.len(),
    ensures
        r == has_flagged_ancestor(tree.parent@, flags@, node as int),
    decreases node,
{
    match tree.parent[node] {
        Some(p) => {
            if flags[p] {
                true
            } else {
                ancestor_flagged(tree, flags, p)
            }
        },
        None => false,
    }
}

/// Whether the pass restyles `node`: it must carry an element, and either
/// its element changed, or it sits in the subtree of a changed theme.
pub open spec fn spec_affected(
    parent: Seq<Option<usize>>,
    elements: Seq<Option<ThemeElement>>,
    changed_elements: Seq<bool>,
    changed_themes: Seq<bool>,
    node: int,
) -> bool {
    &&& 0 <= node < parent.len()
    &&& elements[node] is Some
    &&& (changed_elements[node] || changed_themes[node] || has_flagged_ancestor(
        parent,
        changed_themes,
        node,
    ))
}

/// One style insertion the pass asks the host for.
#[derive(Clone, Copy, Debug)]
pub struct StyleInsertion {
    pub entity: usize,
    pub style: InteractionNodeStyle,
}

/// The theme pass: computes, for every node affected by a changed element
/// or a changed theme, the style its class resolves to.  Nodes whose
/// class no theme knows are left alone.
pub fn resolve_changed_styles(
    tree: &SceneTree,
    themes: &Vec<Option<Theme>>,
    elements: &Vec<Option<ThemeElement>>,
    changed_elements: &Vec<bool>,
    changed_themes: &Vec<bool>,
    default_theme: &Theme,
) -> (r: Vec<StyleInsertion>)
    requires
        tree.wf(),
        themes@.len() == tree.parent@.len(),
        elements@.len() == tree.parent@.len(),
        changed_elements@.len() == tree.parent@.len(),
        changed_themes@.len() == tree.parent@.len(),
        forall|i: int| 0 <= i < themes@.len() ==> match #[trigger] themes@[i] {
            Some(th) => th.wf(),
            None => true,
        },
        default_theme.wf(),
    ensures
        forall|idx: int|
            0 <= idx < r@.len() ==> {
                let e = (#[trigger] r@[idx]).entity as int;
                &&& spec_affected(tree.parent@, elements@, changed_elements@, changed_themes@, e)
                &&& match elements@[e] {
                    Some(el) => spec_resolve(tree.parent@, themes@, *default_theme, e, el.class@)
                        == Some(r@[idx].style),
                    None => false,
                }
            },
        forall|e: int|
            spec_affected(tree.parent@, elements@, changed_elements@, changed_themes@, e)
                && (match elements@[e] {
                Some(el) => spec_resolve(
                    tree.parent@,
                    themes@,
                    *default_theme,
                    e,
                    el.class@,
                ) is Some,
                None => false,
            }) ==> exists|idx: int| 0 <= idx < r@.len() && (#[trigger] r@[idx]).entity == e,
        forall|idx1: int, idx2: int|
            0 <= idx1 < idx2 < r@.len() ==> (#[trigger] r@[idx1]).entity < (#[trigger] r@[
                idx2
            ]).entity,
{
    let n = tree.parent.len();
    let mut r: Vec<StyleInsertion> = Vec::new();
    let mut e: usize = 0;
    while e < n
        invariant
            n == tree.parent@.len(),
            e <= n,
            tree.wf(),
            themes@.len() == n,
            elements@.len() == n,
            changed_elements@.len() == n,
            changed_themes@.len() == n,
            forall|i: int| 0 <= i < themes@.len() ==> match #[trigger] themes@[i] {
                Some(th) => th.wf(),
                None => true,
            },
            default_theme.wf(),
            forall|idx: int|
                0 <= idx < r@.len() ==> {
                    let ent = (#[trigger] r@[idx]).entity as int;
                    &&& ent < e
                    &&& spec_affected(
                        tree.parent@,
                        elements@,
                        changed_elements@,
                        changed_themes@,
                        ent,
                    )
                    &&& match elements@[ent] {
                        Some(el) => spec_resolve(
                            tree.parent@,
                            themes@,
                            *default_theme,
                            ent,
                            el.class@,
                        ) == Some(r@[idx].style),
                        None => false,
                    }
                },
            forall|e2: int|
                e2 < e && spec_affected(
                    tree.parent@,
                    elements@,
                    changed_elements@,
                    changed_themes@,
                    e2,
                ) && (match elements@[e2] {
                    Some(el) => spec_resolve(
                        tree.parent@,
                        themes@,
                        *default_theme,
                        e2,
                        el.class@,
                    ) is Some,
                    None => false,
                }) ==> exists|idx: int| 0 <= idx < r@.len() && (#[trigger] r@[idx]).entity == e2,
            forall|idx1: int, idx2: int|
                0 <= idx1 < idx2 < r@.len() ==> (#[trigger] r@[idx1]).entity < (#[trigger] r@[
                    idx2
                ]).entity,
        decreases n - e,
    {
        let ghost r0 = r@;
        let affected = match &elements[e] {
            Some(_) => changed_elements[e] || changed_themes[e] || ancestor_flagged(
                tree,
                changed_themes,
                e,
            ),
            None => false,
        };
        if affected {
            let class = match &elements[e] {
                Some(el) => el.class.clone(),
                None => String::new(),
            };
            match resolve_class_style(tree, themes, default_theme, e, &class) {
                Some(style) => {
                    r.push(StyleInsertion { entity: e, style });
                },
                None => {},
            }
        }
        proof {
            assert forall|e2: int|
                e2 < e + 1 && spec_affected(
                    tree.parent@,
                    elements@,
                    changed_elements@,
                    changed_themes@,
                    e2,
                ) && (match elements@[e2] {
                    Some(el) => spec_resolve(
                        tree.parent@,
                        themes@,
                        *default_theme,
                        e2,
                        el.class@,
                    ) is Some,
                    None => false,
                }) implies exists|idx: int|
                0 <= idx < r@.len() && (#[trigger] r@[idx]).entity == e2 by {
                if e2 == e {
                    assert(r@.len() > r0.len());
                    assert(r@[r@.len() - 1].entity == e2);
                } else {
                    let idx = choose|idx: int|
                        0 <= idx < r0.len() && (#[trigger] r0[idx]).entity == e2;
                    assert(r@[idx] == r0[idx]);
                }
            }
        }
        e = e + 1;
    }
    r
}

} // verus!
