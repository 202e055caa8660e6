//! The page-navigation stack.
//!
//! A navigation node keeps a stack of page names (`path`) and, between host
//! frames, an optional queued stack (`next_path`).  Queueing operations edit
//! `next_path`; once per frame the host applies the queued stack, which
//! decides whether the old page's children are torn down and which scene is
//! spawned next.

use vstd::prelude::*;
use crate::strcoll::StrMap;
use crate::scene_system::GenericScene;

verus! {

/// The name at the top of a page stack, as a character sequence.
pub open spec fn last_view(v: Seq<String>) -> Option<Seq<char>> {
    if v.len() == 0 {
        None
    } else {
        Some(v.last()@)
    }
}

/// Whether the top of `v` is the name `p`.
pub open spec fn last_is(v: Seq<String>, p: Seq<char>) -> bool {
    v.len() > 0 && v.last()@ == p
}

/// The queued stack as a sequence, when one is queued.
pub open spec fn queued_view(o: Option<Vec<String>>) -> Option<Seq<String>> {
    match o {
        Some(v) => Some(v@),
        None => None,
    }
}

/// Dropping `count` pages: edits the queued stack if there is a non-empty
/// one, otherwise queues the current stack shortened by `count`.
pub open spec fn pop_step(path: Seq<String>, next: Option<Seq<String>>, count: int) -> (
    Seq<String>,
    Option<Seq<String>>,
) {
    match next {
        Some(np) => if np.len() > 0 {
            (path, Some(np.take(if count >= np.len() { 0 } else { np.len() - count })))
        } else {
            (path, Some(np))
        },
        None => if path.len() > 0 {
            (path, Some(path.take(if count >= path.len() { 0 } else { path.len() - count })))
        } else {
            (path, None)
        },
    }
}

/// Appending one page: a repeated top is dropped; appending the page that
/// is already current short-circuits the queued stack into the live one;
/// the empty name clears the whole stack.
pub open spec fn append_page_step(
    path: Seq<String>,
    next: Option<Seq<String>>,
    page: String,
) -> (Seq<String>, Option<Seq<String>>) {
    if page@.len() == 0 {
        pop_step(path, next, usize::MAX as int)
    } else {
        match next {
            Some(np) => if last_is(np, page@) {
                (path, Some(np))
            } else if last_is(path, page@) {
                (np.push(page), None)
            } else {
                (path, Some(np.push(page)))
            },
            None => if last_is(path, page@) {
                (path, None)
            } else {
                (path, Some(path.push(page)))
            },
        }
    }
}

/// Appending a whole stack, page by page.
pub open spec fn append_all_step(
    path: Seq<String>,
    next: Option<Seq<String>>,
    pages: Seq<String>,
) -> (Seq<String>, Option<Seq<String>>)
    decreases pages.len(),
{
    if pages.len() == 0 {
        (path, next)
    } else {
        let (p1, n1) = append_page_step(path, next, pages[0]);
        append_all_step(p1, n1, pages.drop_first())
    }
}

/// Replacing the stack: a replacement ending in the page that is already
/// current takes effect at once, otherwise it is queued.
pub open spec fn set_path_step(
    path: Seq<String>,
    next: Option<Seq<String>>,
    new_path: Seq<String>,
) -> (Seq<String>, Option<Seq<String>>) {
    match next {
        Some(np) => if last_view(np) != last_view(new_path) && last_view(path) == last_view(
            new_path,
        ) {
            (new_path, None)
        } else {
            (path, Some(new_path))
        },
        None => if last_view(path) == last_view(new_path) {
            (new_path, None)
        } else {
            (path, Some(new_path))
        },
    }
}

/// The stack a queued state settles into once it is applied: the queued
/// stack when one is pending, else the live one.
pub open spec fn effective_path(path: Seq<String>, next: Option<Seq<String>>) -> Seq<String> {
    match next {
        Some(np) => np,
        None => path,
    }
}

/// Replacing the stack always takes effect: whatever was live or queued
/// before, after `queue_set_path` the effective stack is the replacement.
pub proof fn lemma_set_path_applies(
    path: Seq<String>,
    next: Option<Seq<String>>,
    new_path: Seq<String>,
)
    ensures
        ({
            let (p1, n1) = set_path_step(path, next, new_path);
            effective_path(p1, n1)
        }) == new_path,
{
}

/// Queueing a page puts it on top: after `queue_append_page` with a
/// non-empty name, the effective stack ends in that page.
pub proof fn lemma_append_page_tops(path: Seq<String>, next: Option<Seq<String>>, page: String)
    requires
        page@.len() > 0,
    ensures
        ({
            let (p1, n1) = append_page_step(path, next, page);
            last_view(effective_path(p1, n1))
        }) == Some(page@),
{
    let (p1, n1) = append_page_step(path, next, page);
    match next {
        Some(np) => {
            if last_is(np, page@) {
            } else if last_is(path, page@) {
                assert(effective_path(p1, n1) == np.push(page));
            } else {
                assert(effective_path(p1, n1) == np.push(page));
            }
        },
        None => {
            if last_is(path, page@) {
            } else {
                assert(effective_path(p1, n1) == path.push(page));
            }
        },
    }
}

/// A navigation node: its registered pages, the page used when the stack is
/// empty, the live stack, the queued stack, and the host entity currently
/// holding the spawned page scene.
pub struct UiNavigation {
    pub pages: StrMap<GenericScene>,
    pub root_page: Option<GenericScene>,
    pub path: Vec<String>,
    pub next_path: Option<Vec<String>>,
    pub current_scene_root: Option<u64>,
}

/// What applying a queued stack asks the host to do.
pub struct NavChange {
    /// The current page changed, so the node's children are torn down.
    pub remove_children: bool,
    /// The scene to spawn under the node; `None` when no page is registered
    /// under the new top, which the host reports as a missing page.
    pub scene: Option<GenericScene>,
}

impl UiNavigation {
    pub open spec fn wf(self) -> bool {
        self.pages.wf()
    }

    /// The scene shown for a stack top: the root page when the stack is
    /// empty, else the page registered under the top name.
    pub open spec fn page_for(self, name: Option<Seq<char>>) -> Option<GenericScene> {
        match name {
            None => self.root_page,
            Some(n) => if self.pages@.contains_key(n) {
                Some(self.pages@[n])
            } else {
                None
            },
        }
    }

    pub fn new() -> (r: Self)
        ensures
            r.wf(),
            r.pages@ == Map::<Seq<char>, GenericScene>::empty(),
            r.root_page is None,
            r.path@.len() == 0,
            r.next_path is None,
            r.current_scene_root is None,
    {
        UiNavigation {
            pages: StrMap::new(),
            root_page: None,
            path: Vec::new(),
            next_path: None,
            current_scene_root: None,
        }
    }

    /// Registers a page scene under a name, overriding an earlier binding.
    pub fn add_page(&mut self, name: String, scene: GenericScene)
        requires
            old(self).wf(),
        ensures
            final(self).wf(),
            final(self).pages@ == old(self).pages@.insert(name@, scene),
            final(self).root_page == old(self).root_page,
            final(self).path == old(self).path,
            final(self).next_path == old(self).next_path,
            final(self).current_scene_root == old(self).current_scene_root,
    {
        self.pages.insert(name, scene);
    }

    /// The name of the page currently shown, if the stack is not empty.
    pub fn get_current_path(&self) -> (r: Option<String>)
        ensures
            match r {
                Some(p) => self.path@.len() > 0 && p@ == self.path@.last()@,
                None => self.path@.len() == 0,
            },
    {
        if self.path.len() > 0 {
            Some(self.path[self.path.len() - 1].clone())
        } else {
            None
        }
    }

    /// Queues dropping `count` pages from the top of the stack.
    pub fn queue_pop_pages(&mut self, count: usize)
        requires
            old(self).wf(),
        ensures
            final(self).wf(),
            ({
                let (p2, n2) = pop_step(old(self).path@, queued_view(old(self).next_path), count as int);
                final(self).path@ == p2 && queued_view(final(self).next_path) == n2
            }),
            final(self).pages == old(self).pages,
            final(self).root_page == old(self).root_page,
            final(self).current_scene_root == old(self).current_scene_root,
    {
        if self.next_path.is_some() {
            let mut np = self.next_path.take().unwrap();
            if np.len() > 0 {
                let keep: usize = if count >= np.len() {
                    0
                } else {
                    np.len() - count
                };
                np.truncate(keep);
            }
            self.next_path = Some(np);
        } else if self.path.len() > 0 {
            let mut np = clone_pages(&self.path);
            let keep: usize = if count >= np.len() {
                0
            } else {
                np.len() - count
            };
            np.truncate(keep);
            self.next_path = Some(np);
        }
    }

    /// Queues one page on top of the stack.
    pub fn queue_append_page(&mut self, page: String)
        requires
            old(self).wf(),
        ensures
            final(self).wf(),
            ({
                let (p2, n2) = append_page_step(old(self).path@, queued_view(old(self).next_path), page);
                final(self).path@ == p2 && queued_view(final(self).next_path) == n2
            }),
            final(self).pages == old(self).pages,
            final(self).root_page == old(self).root_page,
            final(self).current_scene_root == old(self).current_scene_root,
    {
        if page.as_str().is_empty() {
            self.queue_pop_pages(usize::MAX);
            return ;
        }
        if self.next_path.is_some() {
            let mut np = self.next_path.take().unwrap();
            if !last_matches(&np, &page) {
                if last_matches(&self.path, &page) {
                    np.push(page);
                    self.path = np;
                } else {
                    np.push(page);
                    self.next_path = Some(np);
                }
            } else {
                self.next_path = Some(np);
            }
        } else {
            if !last_matches(&self.path, &page) {
                let mut np = clone_pages(&self.path);
                np.push(page);
                self.next_path = Some(np);
            }
        }
    }

    /// Queues a whole stack of pages, one after the other.
    pub fn queue_append_path(&mut self, path: &Vec<String>)
        requires
            old(self).wf(),
        ensures
            final(self).wf(),
            ({
                let (p2, n2) = append_all_step(
                    old(self).path@,
                    queued_view(old(self).next_path),
                    path@,
                );
                final(self).path@ == p2 && queued_view(final(self).next_path) == n2
            }),
            final(self).pages == old(self).pages,
            final(self).root_page == old(self).root_page,
            final(self).current_scene_root == old(self).current_scene_root,
    {
        let ghost p0 = self.path@;
        let ghost n0 = queued_view(self.next_path);
        proof {
            assert(path@.skip(0) =~= path@);
        }
        let n = path.len();
        let mut i: usize = 0;
        while i < n
            invariant
                self.wf(),
                n == path@.len(),
                i <= n,
                append_all_step(self.path@, queued_view(self.next_path), path@.skip(i as int))
                    == append_all_step(p0, n0, path@),
                self.pages == old(self).pages,
                self.root_page == old(self).root_page,
                self.current_scene_root == old(self).current_scene_root,
            decreases n - i,
        {
            let ghost pre_path = self.path@;
            let ghost pre_next = queued_view(self.next_path);
            let page = path[i].clone();
            self.queue_append_page(page);
            proof {
                let rest = path@.skip(i as int);
                assert(rest[0] == path@[i as int]);
                assert(rest.drop_first() =~= path@.skip(i as int + 1));
                assert(append_all_step(pre_path, pre_next, rest)
                    == append_all_step(self.path@, queued_view(self.next_path), rest.drop_first()));
            }
            i = i + 1;
        }
        proof {
            assert(path@.skip(n as int) =~= Seq::<String>::empty());
        }
    }

    /// Queues replacing the whole stack.
    pub fn queue_set_path(&mut self, path: Vec<String>)
        requires
            old(self).wf(),
        ensures
            final(self).wf(),
            ({
                let (p2, n2) = set_path_step(old(self).path@, queued_view(old(self).next_path), path@);
                final(self).path@ == p2 && queued_view(final(self).next_path) == n2
            }),
            final(self).pages == old(self).pages,
            final(self).root_page == old(self).root_page,
            final(self).current_scene_root == old(self).current_scene_root,
    {
        if self.next_path.is_some() {
            let np = self.next_path.take().unwrap();
            if !last_views_match(&np, &path) {
                if last_views_match(&self.path, &path) {
                    self.path = path;
                } else {
                    self.next_path = Some(path);
                }
            } else {
                self.next_path = Some(path);
            }
        } else if last_views_match(&self.path, &path) {
            self.path = path;
        } else {
            self.next_path = Some(path);
        }
    }

    /// When the node enters the world: a queued stack becomes the live one,
    /// and the scene for the resulting top is handed back for spawning.
    pub fn apply_spawn(&mut self) -> (r: Option<GenericScene>)
        requires
            old(self).wf(),
        ensures
            final(self).wf(),
            final(self).path@ == match queued_view(old(self).next_path) {
                Some(np) => np,
                None => old(self).path@,
            },
            final(self).next_path is None,
            r == old(self).page_for(last_view(final(self).path@)),
            final(self).pages == old(self).pages,
            final(self).root_page == old(self).root_page,
            final(self).current_scene_root == old(self).current_scene_root,
    {
        if self.next_path.is_some() {
            let np = self.next_path.take().unwrap();
            self.path = np;
        }
        let r = if self.path.len() > 0 {
            match self.pages.get(&self.path[self.path.len() - 1]) {
                Some(sc) => Some(*sc),
                None => None,
            }
        } else {
            self.root_page
        };
        r
    }

    /// Once per frame: applies a queued stack, deciding whether the old
    /// page's children are torn down and which scene is spawned next.
    pub fn apply_queued_change(&mut self) -> (r: Option<NavChange>)
        requires
            old(self).wf(),
        ensures
            final(self).wf(),
            old(self).next_path is None ==> *final(self) == *old(self) && r is None,
            match queued_view(old(self).next_path) {
                None => r is None,
                Some(np) => {
                    &&& final(self).path@ == np
                    &&& final(self).next_path is None
                    &&& match r {
                        Some(ch) => {
                            &&& ch.remove_children == (last_view(old(self).path@) != last_view(np))
                            &&& ch.scene == old(self).page_for(last_view(np))
                        },
                        None => false,
                    }
                },
            },
            final(self).pages == old(self).pages,
            final(self).root_page == old(self).root_page,
            final(self).current_scene_root == old(self).current_scene_root,
    {
        if self.next_path.is_none() {
            return None;
        }
        let np = self.next_path.take().unwrap();
        let remove_children = !last_views_match(&self.path, &np);
        let scene = if np.len() > 0 {
            match self.pages.get(&np[np.len() - 1]) {
                Some(sc) => Some(*sc),
                None => None,
            }
        } else {
            self.root_page
        };
        self.path = np;
        Some(NavChange { remove_children, scene })
    }
}

impl Default for UiNavigation {
    fn default() -> (r: Self)
        ensures
            r.wf(),
            r.pages@ == Map::<Seq<char>, GenericScene>::empty(),
            r.root_page is None,
            r.path@.len() == 0,
            r.next_path is None,
            r.current_scene_root is None,
    {
        UiNavigation::new()
    }
}

/// A navigation request sent to a navigation node.
#[derive(Clone, Debug)]
pub enum UiNavigationEvent {
    AppendPath(Vec<String>),
    PopPath(usize),
    SetPath(Vec<String>),
}

impl UiNavigation {
    /// Dispatches a navigation request to the queueing operation it asks
    /// for.
    pub fn apply_navigation_event(&mut self, event: &UiNavigationEvent)
        requires
            old(self).wf(),
        ensures
            final(self).wf(),
            ({
                let (p2, n2) = match *event {
                    UiNavigationEvent::AppendPath(ref pages) => append_all_step(
                        old(self).path@,
                        queued_view(old(self).next_path),
                        pages@,
                    ),
                    UiNavigationEvent::PopPath(count) => pop_step(
                        old(self).path@,
                        queued_view(old(self).next_path),
                        count as int,
                    ),
                    UiNavigationEvent::SetPath(ref pages) => set_path_step(
                        old(self).path@,
                        queued_view(old(self).next_path),
                        pages@,
                    ),
                };
                final(self).path@ == p2 && queued_view(final(self).next_path) == n2
            }),
            final(self).pages == old(self).pages,
            final(self).root_page == old(self).root_page,
            final(self).current_scene_root == old(self).current_scene_root,
    {
        match event {
            UiNavigationEvent::AppendPath(pages) => {
                self.queue_append_path(pages);
            },
            UiNavigationEvent::PopPath(count) => {
                self.queue_pop_pages(*count);
            },
            UiNavigationEvent::SetPath(pages) => {
                self.queue_set_path(clone_pages(pages));
            },
        }
    }
}

/// Copies a page stack; the copy denotes the same pages.
pub fn clone_pages(v: &Vec<String>) -> (r: Vec<String>)
    ensures
        r@ == v@,
{
    let mut r: Vec<String> = Vec::new();
    let n = v.len();
    let mut i: usize = 0;
    while i < n
        invariant
            n == v@.len(),
            i <= n,
            r@.len() == i,
            forall|j: int| 0 <= j < i ==> r@[j] == v@[j],
        decreases n - i,
    {
        r.push(v[i].clone());
        i = i + 1;
    }
    proof {
        assert(r@ =~= v@);
    }
    r
}

/// Whether the top of `v` is the page `p`.
fn last_matches(v: &Vec<String>, p: &String) -> (r: bool)
    ensures
        r == last_is(v@, p@),
{
    if v.len() == 0 {
        false
    } else {
        v[v.len() - 1].eq(p)
    }
}

/// Whether two stacks end in the same page name.
fn last_views_match(a: &Vec<String>, b: &Vec<String>) -> (r: bool)
    ensures
        r == (last_view(a@) == last_view(b@)),
{
    if a.len() == 0 && b.len() == 0 {
        true
    } else if a.len() > 0 && b.len() > 0 {
        let r = a[a.len() - 1].eq(&b[b.len() - 1]);
        proof {
            if a@.last()@ == b@.last()@ {
                assert(last_view(a@) == last_view(b@));
            } else {
                assert(last_view(a@) != last_view(b@));
            }
        }
        r
    } else {
        false
    }
}

} // verus!
