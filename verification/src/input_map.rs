//! Keyboard input mapping.
//!
//! Raw key events are debounced against the recorded key states and then
//! translated, through the input map, into named UI actions.  The map keeps
//! a reverse cache from inputs to the actions bound to them; the cache is
//! exactly the inverse of the map.

use vstd::prelude::*;
use crate::strcoll::{StrMap, StrSet};
use crate::event_system::HandledEventExt;
use crate::PLACEHOLDER_ENTITY;

verus! {

/// Key code of the escape key.
pub const KEY_CODE_ESCAPE: u32 = 27;

/// Key code of the enter key.
pub const KEY_CODE_ENTER: u32 = 13;

/// Whether a key goes down or up.
#[derive(Clone, Copy, Debug, PartialEq, Eq, Structural)]
pub enum ButtonState {
    Pressed,
    Released,
}

impl ButtonState {
    pub fn is_pressed(&self) -> (r: bool)
        ensures
            r == (*self == ButtonState::Pressed),
    {
        match self {
            ButtonState::Pressed => true,
            ButtonState::Released => false,
        }
    }
}

/// The symbol a key stroke stands for, after layout handling.
#[derive(Debug)]
pub enum LogicalKey {
    /// Printable text produced by the key.
    Character(String),
    Escape,
    Enter,
    Space,
    Backspace,
    /// The key bound to clearing a text field.
    Soft1,
    /// Any other symbol, by its host code.
    Other(u32),
}

/// Equivalence of key symbols; printable text compares by its characters.
pub open spec fn key_sym_eq(a: LogicalKey, b: LogicalKey) -> bool {
    match (a, b) {
        (LogicalKey::Character(x), LogicalKey::Character(y)) => x@ == y@,
        (LogicalKey::Escape, LogicalKey::Escape) => true,
        (LogicalKey::Enter, LogicalKey::Enter) => true,
        (LogicalKey::Space, LogicalKey::Space) => true,
        (LogicalKey::Backspace, LogicalKey::Backspace) => true,
        (LogicalKey::Soft1, LogicalKey::Soft1) => true,
        (LogicalKey::Other(x), LogicalKey::Other(y)) => x == y,
        _ => false,
    }
}

impl PartialEq for LogicalKey {
    fn eq(&self, other: &LogicalKey) -> (r: bool) {
        match (self, other) {
            (LogicalKey::Character(x), LogicalKey::Character(y)) => x.eq(y),
            (LogicalKey::Escape, LogicalKey::Escape) => true,
            (LogicalKey::Enter, LogicalKey::Enter) => true,
            (LogicalKey::Space, LogicalKey::Space) => true,
            (LogicalKey::Backspace, LogicalKey::Backspace) => true,
            (LogicalKey::Soft1, LogicalKey::Soft1) => true,
            (LogicalKey::Other(x), LogicalKey::Other(y)) => x == y,
            _ => false,
        }
    }
}

impl vstd::std_specs::cmp::PartialEqSpecImpl for LogicalKey {
    open spec fn obeys_eq_spec() -> bool {
        true
    }

    open spec fn eq_spec(&self, other: &LogicalKey) -> bool {
        key_sym_eq(*self, *other)
    }
}

impl Clone for LogicalKey {
    /// A clone denotes the same symbol.
    fn clone(&self) -> (r: Self)
        ensures
            r == *self,
    {
        match self {
            LogicalKey::Character(x) => LogicalKey::Character(x.clone()),
            LogicalKey::Escape => LogicalKey::Escape,
            LogicalKey::Enter => LogicalKey::Enter,
            LogicalKey::Space => LogicalKey::Space,
            LogicalKey::Backspace => LogicalKey::Backspace,
            LogicalKey::Soft1 => LogicalKey::Soft1,
            LogicalKey::Other(x) => LogicalKey::Other(*x),
        }
    }
}

/// A key event: the physical key, its symbol, its direction, whether it is
/// an auto-repeat, and the window it came from.
#[derive(Debug)]
pub struct KeyboardInput {
    pub key_code: u32,
    pub logical_key: LogicalKey,
    pub state: ButtonState,
    pub repeat: bool,
    pub window: u64,
}

/// Equivalence of key events, field by field.
pub open spec fn key_input_eq(a: KeyboardInput, b: KeyboardInput) -> bool {
    &&& a.key_code == b.key_code
    &&& key_sym_eq(a.logical_key, b.logical_key)
    &&& a.state == b.state
    &&& a.repeat == b.repeat
    &&& a.window == b.window
}

impl PartialEq for KeyboardInput {
    fn eq(&self, other: &KeyboardInput) -> (r: bool) {
        self.key_code == other.key_code && self.logical_key.eq(&other.logical_key)
            && self.state == other.state && self.repeat == other.repeat
            && self.window == other.window
    }
}

impl vstd::std_specs::cmp::PartialEqSpecImpl for KeyboardInput {
    open spec fn obeys_eq_spec() -> bool {
        true
    }

    open spec fn eq_spec(&self, other: &KeyboardInput) -> bool {
        key_input_eq(*self, *other)
    }
}

impl Clone for KeyboardInput {
    /// A clone denotes the same key event.
    fn clone(&self) -> (r: Self)
        ensures
            r == *self,
    {
        KeyboardInput {
            key_code: self.key_code,
            logical_key: self.logical_key.clone(),
            state: self.state,
            repeat: self.repeat,
            window: self.window,
        }
    }
}

/// An input a UI action can be bound to.
#[derive(Debug)]
pub enum InputValue {
    Keyboard(KeyboardInput),
}

/// Equivalence of bindable inputs.
pub open spec fn input_value_eq(a: InputValue, b: InputValue) -> bool {
    match (a, b) {
        (InputValue::Keyboard(x), InputValue::Keyboard(y)) => key_input_eq(x, y),
    }
}

pub broadcast proof fn lemma_value_eq_sym(a: InputValue, b: InputValue)
    ensures
        #[trigger] input_value_eq(a, b) == input_value_eq(b, a),
{
}

pub broadcast proof fn lemma_value_eq_trans(a: InputValue, b: InputValue, c: InputValue)
    ensures
        (#[trigger] input_value_eq(a, b) && #[trigger] input_value_eq(b, c)) ==> input_value_eq(
            a,
            c,
        ),
{
}

impl InputValue {
    pub open spec fn spec_key_code(self) -> u32 {
        match self {
            InputValue::Keyboard(k) => k.key_code,
        }
    }

    /// Whether two inputs press the same physical key, whatever their
    /// symbols or direction.
    pub fn matches_keycode(&self, other: &Self) -> (r: bool)
        ensures
            r == (self.spec_key_code() == other.spec_key_code()),
    {
        match (self, other) {
            (InputValue::Keyboard(a), InputValue::Keyboard(b)) => a.key_code == b.key_code,
        }
    }
}

impl PartialEq for InputValue {
    fn eq(&self, other: &InputValue) -> (r: bool) {
        match (self, other) {
            (InputValue::Keyboard(a), InputValue::Keyboard(b)) => a.eq(b),
        }
    }
}

impl vstd::std_specs::cmp::PartialEqSpecImpl for InputValue {
    open spec fn obeys_eq_spec() -> bool {
        true
    }

    open spec fn eq_spec(&self, other: &InputValue) -> bool {
        input_value_eq(*self, *other)
    }
}

impl Clone for InputValue {
    /// A clone denotes the same input.
    fn clone(&self) -> (r: Self)
        ensures
            r == *self,
    {
        match self {
            InputValue::Keyboard(k) => InputValue::Keyboard(k.clone()),
        }
    }
}

/// The set of inputs an action is bound to.
#[derive(Debug)]
pub struct InputContext {
    pub values: Vec<InputValue>,
}

/// Whether `vs` holds an input equivalent to `v`.
pub open spec fn holds_value(vs: Seq<InputValue>, v: InputValue) -> bool {
    exists|i: int| 0 <= i < vs.len() && input_value_eq(#[trigger] vs[i], v)
}

impl InputContext {
    pub open spec fn wf(self) -> bool {
        forall|i: int, j: int|
            0 <= i < j < self.values@.len() ==> !input_value_eq(self.values@[i], self.values@[j])
    }

    pub fn new() -> (r: Self)
        ensures
            r.wf(),
            r.values@.len() == 0,
    {
        InputContext { values: Vec::new() }
    }

    pub fn contains(&self, v: &InputValue) -> (r: bool)
        ensures
            r == holds_value(self.values@, *v),
    {
        let n = self.values.len();
        let mut i: usize = 0;
        while i < n
            invariant
                n == self.values@.len(),
                i <= n,
                forall|j: int| 0 <= j < i ==> !input_value_eq(self.values@[j], *v),
            decreases n - i,
        {
            if self.values[i].eq(v) {
                return true;
            }
            i = i + 1;
        }
        false
    }

    /// Adds an input unless an equivalent one is already bound.
    pub fn add(&mut self, v: InputValue)
        requires
            old(self).wf(),
        ensures
            final(self).wf(),
            forall|w: InputValue| holds_value(final(self).values@, w) == (holds_value(
                old(self).values@,
                w,
            ) || input_value_eq(v, w)),
    {
        if !self.contains(&v) {
            let ghost s0 = self.values@;
            self.values.push(v);
            proof {
                assert(self.values@.drop_last() =~= s0);
                assert(self.values@.last() == v);
                assert(forall|w: InputValue| holds_value(self.values@, w) == (holds_value(s0, w)
                    || input_value_eq(v, w))) by {
                    assert forall|w: InputValue| holds_value(self.values@, w) implies (holds_value(
                        s0,
                        w,
                    ) || input_value_eq(v, w)) by {
                        let i = choose|i: int|
                            0 <= i < self.values@.len() && input_value_eq(
                                #[trigger] self.values@[i],
                                w,
                            );
                        if i < s0.len() {
                            assert(s0[i] == self.values@[i]);
                        }
                    }
                    assert forall|w: InputValue| (holds_value(s0, w) || input_value_eq(v, w))
                        implies holds_value(self.values@, w) by {
                        if holds_value(s0, w) {
                            let i = choose|i: int|
                                0 <= i < s0.len() && input_value_eq(#[trigger] s0[i], w);
                            assert(self.values@[i] == s0[i]);
                        } else {
                            assert(self.values@[s0.len() as int] == v);
                        }
                    }
                }
            }
        } else {
            proof {
                assert(forall|w: InputValue| holds_value(self.values@, w) ==> (holds_value(
                    self.values@,
                    w,
                ) || input_value_eq(v, w)));
                assert forall|w: InputValue| input_value_eq(v, w) implies holds_value(
                    self.values@,
                    w,
                ) by {
                    let i = choose|i: int|
                        0 <= i < self.values@.len() && input_value_eq(#[trigger] self.values@[i], v);
                }
            }
        }
    }
}

impl Default for InputContext {
    fn default() -> (r: Self)
        ensures
            r.wf(),
            r.values@.len() == 0,
    {
        InputContext::new()
    }
}

/// The set of action names bound to an input, as the reverse cache sees
/// it; a later cache entry overrides an earlier equivalent one.
pub open spec fn cache_set(c: Seq<(InputValue, StrSet)>, v: InputValue) -> Set<Seq<char>>
    decreases c.len(),
{
    if c.len() == 0 {
        Set::empty()
    } else if input_value_eq(c.last().0, v) {
        c.last().1@
    } else {
        cache_set(c.drop_last(), v)
    }
}

/// Whether the reverse cache has an entry for an input.
pub open spec fn cache_has(c: Seq<(InputValue, StrSet)>, v: InputValue) -> bool
    decreases c.len(),
{
    if c.len() == 0 {
        false
    } else {
        input_value_eq(c.last().0, v) || cache_has(c.drop_last(), v)
    }
}

/// The input map: action names bound to sets of inputs, with the reverse
/// cache from inputs to action names.
pub struct InputMaps {
    pub map: StrMap<InputContext>,
    pub comparison_cache: Vec<(InputValue, StrSet)>,
}

impl InputMaps {
    pub open spec fn wf(self) -> bool {
        &&& self.map.wf()
        &&& forall|k: Seq<char>| self.map@.contains_key(k) ==> (#[trigger] self.map@[k]).wf()
        &&& forall|i: int, j: int|
            0 <= i < j < self.comparison_cache@.len() ==> !input_value_eq(
                self.comparison_cache@[i].0,
                self.comparison_cache@[j].0,
            )
        &&& forall|i: int|
            0 <= i < self.comparison_cache@.len() ==> (#[trigger] self.comparison_cache@[i].1).wf()
    }

    /// Whether the map binds action `k` to input `v`.
    pub open spec fn binds(self, k: Seq<char>, v: InputValue) -> bool {
        self.map@.contains_key(k) && holds_value(self.map@[k].values@, v)
    }

    /// The cache is exactly the inverse of the map.
    pub open spec fn inverted(self) -> bool {
        forall|v: InputValue, k: Seq<char>|
            #![trigger cache_set(self.comparison_cache@, v).contains(k)]
            #![trigger self.binds(k, v)]
            cache_set(self.comparison_cache@, v).contains(k) <==> self.binds(k, v)
    }
    pub fn new() -> (r: Self)
        ensures
            r.wf(),
            r.map@ == Map::<Seq<char>, InputContext>::empty(),
            r.comparison_cache@.len() == 0,
            r.inverted(),
    {
        let r = InputMaps { map: StrMap::new(), comparison_cache: Vec::new() };
        proof {
            assert forall|v: InputValue, k: Seq<char>|
                #![trigger cache_set(r.comparison_cache@, v).contains(k)]
                #![trigger r.binds(k, v)]
                cache_set(r.comparison_cache@, v).contains(k) <==> r.binds(k, v) by {
                assert(!cache_set(r.comparison_cache@, v).contains(k));
                assert(!r.binds(k, v));
            }
        }
        r
    }

    /// The cached action names for an input, if any input equivalent to it
    /// has an entry.
    pub fn cache_lookup<'a>(&'a self, v: &InputValue) -> (r: Option<&'a StrSet>)
        ensures
            match r {
                Some(s) => cache_has(self.comparison_cache@, *v) && s@ == cache_set(
                    self.comparison_cache@,
                    *v,
                ),
                None => !cache_has(self.comparison_cache@, *v),
            },
    {
        let n = self.comparison_cache.len();
        proof {
            assert(self.comparison_cache@.take(n as int) =~= self.comparison_cache@);
        }
        let mut i: usize = n;
        while i > 0
            invariant
                n == self.comparison_cache@.len(),
                i <= n,
                cache_set(self.comparison_cache@, *v) == cache_set(
                    self.comparison_cache@.take(i as int),
                    *v,
                ),
                cache_has(self.comparison_cache@, *v) == cache_has(
                    self.comparison_cache@.take(i as int),
                    *v,
                ),
            decreases i,
        {
            proof {
                assert(self.comparison_cache@.take(i as int).last()
                    == self.comparison_cache@[i - 1]);
                assert(self.comparison_cache@.take(i as int).drop_last()
                    =~= self.comparison_cache@.take(i as int - 1));
            }
            if self.comparison_cache[i - 1].0.eq(v) {
                return Some(&self.comparison_cache[i - 1].1);
            }
            i = i - 1;
        }
        proof {
            assert(self.comparison_cache@.take(0) =~= Seq::<(InputValue, StrSet)>::empty());
        }
        None
    }

    /// Index of the cache entry of an input equivalent to `v`, if any.
    fn cache_find(&self, v: &InputValue) -> (r: Option<usize>)
        ensures
            match r {
                Some(i) => i < self.comparison_cache@.len() && input_value_eq(
                    self.comparison_cache@[i as int].0,
                    *v,
                ),
                None => forall|j: int|
                    0 <= j < self.comparison_cache@.len() ==> !input_value_eq(
                        self.comparison_cache@[j].0,
                        *v,
                    ),
            },
    {
        let n = self.comparison_cache.len();
        let mut i: usize = 0;
        while i < n
            invariant
                n == self.comparison_cache@.len(),
                i <= n,
                forall|j: int| 0 <= j < i ==> !input_value_eq(self.comparison_cache@[j].0, *v),
            decreases n - i,
        {
            if self.comparison_cache[i].0.eq(v) {
                return Some(i);
            }
            i = i + 1;
        }
        None
    }

    /// Records in the reverse cache that action `key` is bound to
    /// `input_value`.
    fn add_input_cache(&mut self, key: String, input_value: InputValue)
        requires
            old(self).wf(),
        ensures
            final(self).wf(),
            final(self).map == old(self).map,
            forall|v: InputValue|
                #![trigger cache_set(final(self).comparison_cache@, v)]
                cache_set(final(self).comparison_cache@, v) == if input_value_eq(input_value, v) {
                    cache_set(old(self).comparison_cache@, v).insert(key@)
                } else {
                    cache_set(old(self).comparison_cache@, v)
                },
    {
        broadcast use lemma_value_eq_sym, lemma_value_eq_trans;

        let ghost c0 = self.comparison_cache@;
        let ghost gkey = key@;
        let found = self.cache_find(&input_value);
        match found {
            Some(idx) => {
                let mut entry = self.comparison_cache.remove(idx);
                entry.1.insert(key);
                let ghost c1 = self.comparison_cache@;
                let ghost gi = idx as int;
                self.comparison_cache.push(entry);
                proof {
                    assert(c1 =~= c0.remove(gi));
                    Self::lemma_cache_remove(c0, gi);
                    assert(self.comparison_cache@.drop_last() =~= c1);
                    assert(self.comparison_cache@.last().0 == c0[gi].0);
                    assert(self.comparison_cache@.last().1@ == c0[gi].1@.insert(gkey));
                    assert forall|v: InputValue|
                        #![trigger cache_set(self.comparison_cache@, v)]
                        cache_set(self.comparison_cache@, v) == if input_value_eq(input_value, v) {
                            cache_set(c0, v).insert(gkey)
                        } else {
                            cache_set(c0, v)
                        } by {
                        if input_value_eq(input_value, v) {
                            assert(input_value_eq(c0[gi].0, v));
                            assert(input_value_eq(self.comparison_cache@.last().0, v));
                            Self::lemma_cache_at(c0, gi, v);
                        } else {
                            assert(!input_value_eq(c0[gi].0, v));
                            assert(!input_value_eq(self.comparison_cache@.last().0, v));
                            assert(cache_set(self.comparison_cache@, v) == cache_set(c1, v));
                            assert(cache_set(c0.remove(gi), v) == cache_set(c0, v));
                        }
                    }
                    assert forall|p: int, q: int| 0 <= p < q < self.comparison_cache@.len()
                        implies !input_value_eq(
                        self.comparison_cache@[p].0,
                        self.comparison_cache@[q].0,
                    ) by {
                        let m = self.comparison_cache@.len();
                        if q == m - 1 {
                            let p0 = if p < gi {
                                p
                            } else {
                                p + 1
                            };
                            assert(self.comparison_cache@[p] == c1[p]);
                            assert(c1[p] == c0[p0]);
                            if p0 < gi {
                                assert(!input_value_eq(c0[p0].0, c0[gi].0));
                            } else {
                                assert(!input_value_eq(c0[gi].0, c0[p0].0));
                            }
                        } else {
                            let p0 = if p < gi {
                                p
                            } else {
                                p + 1
                            };
                            let q0 = if q < gi {
                                q
                            } else {
                                q + 1
                            };
                            assert(self.comparison_cache@[p] == c1[p]);
                            assert(self.comparison_cache@[q] == c1[q]);
                            assert(c1[p] == c0[p0]);
                            assert(c1[q] == c0[q0]);
                            assert(!input_value_eq(c0[p0].0, c0[q0].0));
                        }
                    }
                    assert forall|p: int| 0 <= p < self.comparison_cache@.len()
                        implies (#[trigger] self.comparison_cache@[p].1).wf() by {
                        if p < self.comparison_cache@.len() - 1 {
                            let p0 = if p < gi {
                                p
                            } else {
                                p + 1
                            };
                            assert(self.comparison_cache@[p] == c0[p0]);
                        }
                    }
                }
            },
            None => {
                let mut names = StrSet::new();
                names.insert(key);
                self.comparison_cache.push((input_value, names));
                proof {
                    assert(self.comparison_cache@.drop_last() =~= c0);
                    assert forall|v: InputValue|
                        #![trigger cache_set(self.comparison_cache@, v)]
                        cache_set(self.comparison_cache@, v) == if input_value_eq(input_value, v) {
                            cache_set(c0, v).insert(gkey)
                        } else {
                            cache_set(c0, v)
                        } by {
                        if input_value_eq(input_value, v) {
                            assert(input_value_eq(self.comparison_cache@.last().0, v));
                            assert forall|j: int| 0 <= j < c0.len()
                                implies !input_value_eq(c0[j].0, v) by {
                                if input_value_eq(c0[j].0, v) {
                                    assert(input_value_eq(v, input_value));
                                    assert(input_value_eq(c0[j].0, input_value));
                                }
                            }
                            Self::lemma_cache_absent(c0, v);
                            assert(cache_set(c0, v) =~= Set::<Seq<char>>::empty());
                            assert(self.comparison_cache@.last().1@ =~= cache_set(c0, v).insert(
                                gkey,
                            ));
                        } else {
                            assert(!input_value_eq(self.comparison_cache@.last().0, v));
                        }
                    }
                    assert forall|p: int, q: int| 0 <= p < q < self.comparison_cache@.len()
                        implies !input_value_eq(
                        self.comparison_cache@[p].0,
                        self.comparison_cache@[q].0,
                    ) by {
                        if q == self.comparison_cache@.len() - 1 {
                            assert(self.comparison_cache@[p] == c0[p]);
                        } else {
                            assert(self.comparison_cache@[p] == c0[p]);
                            assert(self.comparison_cache@[q] == c0[q]);
                        }
                    }
                    assert forall|p: int| 0 <= p < self.comparison_cache@.len()
                        implies (#[trigger] self.comparison_cache@[p].1).wf() by {
                        if p < self.comparison_cache@.len() - 1 {
                            assert(self.comparison_cache@[p] == c0[p]);
                        }
                    }
                }
            },
        }
    }

    /// With distinct cache keys, entry `i` gives the cached set of its
    /// input.
    proof fn lemma_cache_at(c: Seq<(InputValue, StrSet)>, i: int, v: InputValue)
        requires
            0 <= i < c.len(),
            input_value_eq(c[i].0, v),
            forall|p: int, q: int| 0 <= p < q < c.len() ==> !input_value_eq(c[p].0, c[q].0),
        ensures
            cache_set(c, v) == c[i].1@,
            cache_has(c, v),
        decreases c.len(),
    {
        broadcast use lemma_value_eq_sym, lemma_value_eq_trans;

        if i == c.len() - 1 {
            assert(input_value_eq(c.last().0, v));
        } else {
            assert(!input_value_eq(c[i].0, c.last().0));
            assert(!input_value_eq(c.last().0, v)) by {
                if input_value_eq(c.last().0, v) {
                    assert(input_value_eq(v, c[i].0));
                    assert(input_value_eq(c.last().0, c[i].0));
                    assert(input_value_eq(c[i].0, c.last().0));
                }
            }
            assert forall|p: int, q: int| 0 <= p < q < c.drop_last().len()
                implies !input_value_eq(c.drop_last()[p].0, c.drop_last()[q].0) by {
                assert(c.drop_last()[p] == c[p]);
                assert(c.drop_last()[q] == c[q]);
            }
            Self::lemma_cache_at(c.drop_last(), i, v);
            assert(c.drop_last()[i] == c[i]);
        }
    }

    /// An input none of whose equivalents has an entry caches the empty
    /// set.
    proof fn lemma_cache_absent(c: Seq<(InputValue, StrSet)>, v: InputValue)
        requires
            forall|p: int| 0 <= p < c.len() ==> !input_value_eq(c[p].0, v),
        ensures
            cache_set(c, v) == Set::<Seq<char>>::empty(),
            !cache_has(c, v),
        decreases c.len(),
    {
        if c.len() > 0 {
            assert(!input_value_eq(c.last().0, v));
            assert(forall|p: int| 0 <= p < c.drop_last().len() ==> c.drop_last()[p] == c[p]);
            Self::lemma_cache_absent(c.drop_last(), v);
        }
    }

    /// Removing the entry of an input leaves every other input's cached
    /// set alone and empties that input's.
    proof fn lemma_cache_remove(c: Seq<(InputValue, StrSet)>, i: int)
        requires
            0 <= i < c.len(),
            forall|p: int, q: int| 0 <= p < q < c.len() ==> !input_value_eq(c[p].0, c[q].0),
        ensures
            forall|v: InputValue|
                #![trigger cache_set(c.remove(i), v)]
                cache_set(c.remove(i), v) == if input_value_eq(c[i].0, v) {
                    Set::<Seq<char>>::empty()
                } else {
                    cache_set(c, v)
                },
        decreases c.len(),
    {
        broadcast use lemma_value_eq_sym, lemma_value_eq_trans;

        assert forall|v: InputValue|
            #![trigger cache_set(c.remove(i), v)]
            cache_set(c.remove(i), v) == if input_value_eq(c[i].0, v) {
                Set::<Seq<char>>::empty()
            } else {
                cache_set(c, v)
            } by {
            if i == c.len() - 1 {
                assert(c.remove(i) =~= c.drop_last());
                if input_value_eq(c[i].0, v) {
                    assert forall|p: int| 0 <= p < c.drop_last().len()
                        implies !input_value_eq(c.drop_last()[p].0, v) by {
                        assert(c.drop_last()[p] == c[p]);
                        assert(!input_value_eq(c[p].0, c[i].0));
                        if input_value_eq(c[p].0, v) {
                            assert(input_value_eq(v, c[i].0));
                            assert(input_value_eq(c[p].0, c[i].0));
                        }
                    }
                    Self::lemma_cache_absent(c.drop_last(), v);
                }
            } else {
                assert forall|p: int, q: int| 0 <= p < q < c.drop_last().len()
                    implies !input_value_eq(c.drop_last()[p].0, c.drop_last()[q].0) by {
                    assert(c.drop_last()[p] == c[p]);
                    assert(c.drop_last()[q] == c[q]);
                }
                Self::lemma_cache_remove(c.drop_last(), i);
                assert(c.remove(i).drop_last() =~= c.drop_last().remove(i));
                assert(c.remove(i).last() == c.last());
                assert(c.drop_last()[i] == c[i]);
                if input_value_eq(c[i].0, v) {
                    assert(!input_value_eq(c[i].0, c.last().0));
                    assert(!input_value_eq(c.last().0, v)) by {
                        if input_value_eq(c.last().0, v) {
                            assert(input_value_eq(v, c[i].0));
                            assert(input_value_eq(c.last().0, c[i].0));
                            assert(input_value_eq(c[i].0, c.last().0));
                        }
                    }
                    assert(cache_set(c.remove(i), v) == cache_set(c.drop_last().remove(i), v));
                } else {
                    if !input_value_eq(c.last().0, v) {
                        assert(cache_set(c.remove(i), v) == cache_set(c.drop_last().remove(i), v));
                        assert(cache_set(c, v) == cache_set(c.drop_last(), v));
                    }
                }
            }
        }
    }

    /// Binds action `key` to `input_value`, keeping the reverse cache in
    /// step with the map.
    #[verifier::rlimit(60)]
    pub fn add_input_value(&mut self, key: String, input_value: InputValue)
        requires
            old(self).wf(),
            old(self).inverted(),
        ensures
            final(self).wf(),
            final(self).inverted(),
            forall|k: Seq<char>, v: InputValue|
                #![trigger final(self).binds(k, v)]
                final(self).binds(k, v) == (old(self).binds(k, v) || (k == key@ && input_value_eq(
                    input_value,
                    v,
                ))),
    {
        broadcast use lemma_value_eq_sym, lemma_value_eq_trans;

        let ghost self0 = *self;
        let ghost gkey = key@;
        let present = self.map.contains_key(&key);
        let had = if present {
            match self.map.get(&key) {
                Some(ctx) => ctx.contains(&input_value),
                None => false,
            }
        } else {
            false
        };
        if had {
            proof {
                assert forall|k: Seq<char>, v: InputValue|
                    #![trigger self.binds(k, v)]
                    self.binds(k, v) == (self0.binds(k, v) || (k == gkey && input_value_eq(
                        input_value,
                        v,
                    ))) by {
                    if k == gkey && input_value_eq(input_value, v) {
                        let vs = self0.map@[gkey].values@;
                        let i = choose|i: int|
                            0 <= i < vs.len() && input_value_eq(#[trigger] vs[i], input_value);
                        assert(input_value_eq(vs[i], v));
                        assert(self0.binds(k, v));
                    }
                }
            }
            return ;
        }
        let mut ctx = match self.map.remove(&key) {
            Some(c) => c,
            None => InputContext::new(),
        };
        ctx.add(input_value.clone());
        let ghost gctx = ctx;
        self.map.insert(key.clone(), ctx);
        proof {
            assert forall|k: Seq<char>, v: InputValue|
                #![trigger self.binds(k, v)]
                self.binds(k, v) == (self0.binds(k, v) || (k == gkey && input_value_eq(
                    input_value,
                    v,
                ))) by {
                if k == gkey {
                    assert(self.map@.contains_key(k));
                    assert(self.map@[k] == gctx);
                    if present {
                        assert(holds_value(gctx.values@, v) == (holds_value(
                            self0.map@[gkey].values@,
                            v,
                        ) || input_value_eq(input_value, v)));
                    } else {
                        assert(!self0.map@.contains_key(k));
                        assert(holds_value(gctx.values@, v) == (holds_value(
                            Seq::<InputValue>::empty(),
                            v,
                        ) || input_value_eq(input_value, v)));
                        assert(!holds_value(Seq::<InputValue>::empty(), v));
                    }
                } else {
                    assert(self.map@.contains_key(k) == self0.map@.contains_key(k));
                    if self.map@.contains_key(k) {
                        assert(self.map@[k] == self0.map@[k]);
                    }
                }
            }
        }
        let ghost mid = *self;
        self.add_input_cache(key, input_value);
        proof {
            assert(self.map == mid.map);
            assert forall|k: Seq<char>, v: InputValue|
                #![trigger self.binds(k, v)]
                self.binds(k, v) == (self0.binds(k, v) || (k == gkey && input_value_eq(
                    input_value,
                    v,
                ))) by {
                assert(self.binds(k, v) == mid.binds(k, v));
            }
            assert forall|v: InputValue, k: Seq<char>|
                #![trigger cache_set(self.comparison_cache@, v).contains(k)]
                #![trigger self.binds(k, v)]
                cache_set(self.comparison_cache@, v).contains(k) <==> self.binds(k, v) by {
                assert(cache_set(self.comparison_cache@, v) == if input_value_eq(input_value, v) {
                    cache_set(self0.comparison_cache@, v).insert(gkey)
                } else {
                    cache_set(self0.comparison_cache@, v)
                });
                assert(cache_set(self0.comparison_cache@, v).contains(k) <==> self0.binds(k, v));
                assert(self.binds(k, v) == (self0.binds(k, v) || (k == gkey && input_value_eq(
                    input_value,
                    v,
                ))));
            }
        }
    }

    /// Whether some binding among the first `i` map entries, or among the
    /// first `j` inputs of entry `i`, binds action `k` to input `v`.
    pub open spec fn prefix_binds(
        kv: Seq<(String, InputContext)>,
        i: int,
        j: int,
        k: Seq<char>,
        v: InputValue,
    ) -> bool {
        exists|e: int, w: int|
            #![trigger kv[e].1.values@[w]]
            0 <= e < kv.len() && 0 <= w < kv[e].1.values@.len() && (e < i || (e == i && w < j))
                && kv[e].0@ == k && input_value_eq(kv[e].1.values@[w], v)
    }

    /// A full row of bindings rolls over into the next entry's empty
    /// prefix.
    proof fn lemma_prefix_roll(kv: Seq<(String, InputContext)>, i: int)
        requires
            0 <= i < kv.len(),
        ensures
            forall|k: Seq<char>, v: InputValue|
                Self::prefix_binds(kv, i, kv[i].1.values@.len() as int, k, v)
                    == Self::prefix_binds(kv, i + 1, 0, k, v),
    {
        assert forall|k: Seq<char>, v: InputValue|
            Self::prefix_binds(kv, i, kv[i].1.values@.len() as int, k, v) == Self::prefix_binds(
                kv,
                i + 1,
                0,
                k,
                v,
            ) by {
            let m = kv[i].1.values@.len() as int;
            if Self::prefix_binds(kv, i, m, k, v) {
                let (e, w) = choose|e: int, w: int|
                    #![trigger kv[e].1.values@[w]]
                    0 <= e < kv.len() && 0 <= w < kv[e].1.values@.len() && (e < i || (e == i && w
                        < m)) && kv[e].0@ == k && input_value_eq(kv[e].1.values@[w], v);
                assert(e < i + 1);
                assert(Self::prefix_binds(kv, i + 1, 0, k, v));
            }
            if Self::prefix_binds(kv, i + 1, 0, k, v) {
                let (e, w) = choose|e: int, w: int|
                    #![trigger kv[e].1.values@[w]]
                    0 <= e < kv.len() && 0 <= w < kv[e].1.values@.len() && (e < i + 1 || (e == i + 1
                        && w < 0)) && kv[e].0@ == k && input_value_eq(kv[e].1.values@[w], v);
                assert(e < i || (e == i && w < m));
                assert(Self::prefix_binds(kv, i, m, k, v));
            }
        }
    }

    /// Throws the reverse cache away and rebuilds it from the map.
    pub fn recompute_cache(&mut self)
        requires
            old(self).wf(),
        ensures
            final(self).wf(),
            final(self).map == old(self).map,
            final(self).inverted(),
    {
        broadcast use lemma_value_eq_sym, lemma_value_eq_trans;

        self.comparison_cache = Vec::new();
        let ghost kv = self.map.kv();
        let n = self.map.entry_count();
        let mut i: usize = 0;
        while i < n
            invariant
                self.wf(),
                self.map == old(self).map,
                kv == self.map.kv(),
                n == kv.len(),
                i <= n,
                forall|v: InputValue, k: Seq<char>|
                    #![trigger cache_set(self.comparison_cache@, v).contains(k)]
                    cache_set(self.comparison_cache@, v).contains(k) == Self::prefix_binds(
                        kv,
                        i as int,
                        0,
                        k,
                        v,
                    ),
            decreases n - i,
        {
            let entry_key = self.map.entry_at(i).0.clone();
            let m = self.map.entry_at(i).1.values.len();
            let mut j: usize = 0;
            while j < m
                invariant
                    self.wf(),
                    self.map == old(self).map,
                    kv == self.map.kv(),
                    n == kv.len(),
                    i < n,
                    m == kv[i as int].1.values@.len(),
                    j <= m,
                    entry_key@ == kv[i as int].0@,
                    forall|v: InputValue, k: Seq<char>|
                        #![trigger cache_set(self.comparison_cache@, v).contains(k)]
                        cache_set(self.comparison_cache@, v).contains(k) == Self::prefix_binds(
                            kv,
                            i as int,
                            j as int,
                            k,
                            v,
                        ),
                decreases m - j,
            {
                let ghost pre = *self;
                let value = self.map.entry_at(i).1.values[j].clone();
                self.add_input_cache(entry_key.clone(), value);
                proof {
                    let gi = i as int;
                    let gj = j as int;
                    let ki = kv[gi].0@;
                    let vij = kv[gi].1.values@[gj];
                    assert forall|v: InputValue, k: Seq<char>|
                        #![trigger cache_set(self.comparison_cache@, v).contains(k)]
                        cache_set(self.comparison_cache@, v).contains(k) == Self::prefix_binds(
                            kv,
                            gi,
                            gj + 1,
                            k,
                            v,
                        ) by {
                        assert(cache_set(self.comparison_cache@, v) == if input_value_eq(vij, v) {
                            cache_set(pre.comparison_cache@, v).insert(ki)
                        } else {
                            cache_set(pre.comparison_cache@, v)
                        });
                        if cache_set(self.comparison_cache@, v).contains(k) {
                            if input_value_eq(vij, v) && k == ki {
                                assert(Self::prefix_binds(kv, gi, gj + 1, k, v));
                            } else {
                                assert(cache_set(pre.comparison_cache@, v).contains(k));
                                let (e, w) = choose|e: int, w: int|
                                    #![trigger kv[e].1.values@[w]]
                                    0 <= e < kv.len() && 0 <= w < kv[e].1.values@.len() && (e < gi
                                        || (e == gi && w < gj)) && kv[e].0@ == k && input_value_eq(
                                        kv[e].1.values@[w],
                                        v,
                                    );
                                assert(e < gi || (e == gi && w < gj + 1));
                                assert(Self::prefix_binds(kv, gi, gj + 1, k, v));
                            }
                        }
                        if Self::prefix_binds(kv, gi, gj + 1, k, v) {
                            let (e, w) = choose|e: int, w: int|
                                #![trigger kv[e].1.values@[w]]
                                0 <= e < kv.len() && 0 <= w < kv[e].1.values@.len() && (e < gi || (e
                                    == gi && w < gj + 1)) && kv[e].0@ == k && input_value_eq(
                                    kv[e].1.values@[w],
                                    v,
                                );
                            if e == gi && w == gj {
                                assert(input_value_eq(vij, v));
                                assert(k == ki);
                                assert(cache_set(self.comparison_cache@, v).contains(k));
                            } else {
                                assert(e < gi || (e == gi && w < gj));
                                assert(Self::prefix_binds(kv, gi, gj, k, v));
                                assert(cache_set(pre.comparison_cache@, v).contains(k));
                                assert(cache_set(self.comparison_cache@, v).contains(k));
                            }
                        }
                    }
                }
                j = j + 1;
            }
            proof {
                Self::lemma_prefix_roll(kv, i as int);
            }
            i = i + 1;
        }
        proof {
            assert forall|v: InputValue, k: Seq<char>|
                #![trigger cache_set(self.comparison_cache@, v).contains(k)]
                #![trigger self.binds(k, v)]
                cache_set(self.comparison_cache@, v).contains(k) <==> self.binds(k, v) by {
                if cache_set(self.comparison_cache@, v).contains(k) {
                    let (e, w) = choose|e: int, w: int|
                        #![trigger kv[e].1.values@[w]]
                        0 <= e < kv.len() && 0 <= w < kv[e].1.values@.len() && (e < n as int || (e
                            == n as int && w < 0)) && kv[e].0@ == k && input_value_eq(
                            kv[e].1.values@[w],
                            v,
                        );
                    StrMap::<InputContext>::lemma_entry_to_value(kv, e);
                    assert(self.map@.contains_key(k));
                    assert(self.map@[k] == kv[e].1);
                    assert(holds_value(self.map@[k].values@, v));
                }
                if self.binds(k, v) {
                    StrMap::<InputContext>::lemma_dom_to_entry(kv, k);
                    let e = choose|e: int| 0 <= e < kv.len() && #[trigger] kv[e].0@ == k;
                    StrMap::<InputContext>::lemma_entry_to_value(kv, e);
                    assert(self.map@[k] == kv[e].1);
                    let w = choose|w: int|
                        0 <= w < self.map@[k].values@.len() && input_value_eq(
                            #[trigger] self.map@[k].values@[w],
                            v,
                        );
                    assert(0 <= e < kv.len() && 0 <= w < kv[e].1.values@.len() && (e < n as int)
                        && kv[e].0@ == k && input_value_eq(kv[e].1.values@[w], v));
                    assert(Self::prefix_binds(kv, n as int, 0, k, v));
                    assert(cache_set(self.comparison_cache@, v).contains(k));
                }
            }
        }
    }
}

/// A named-action event produced from a key stroke, carrying every action
/// bound to that input.
#[derive(Debug)]
pub struct MappedInputEvent {
    pub keys: StrSet,
    pub is_handled: bool,
}

impl crate::event_system::HandledEventExt for MappedInputEvent {
    open spec fn handled_view(&self) -> bool {
        self.is_handled
    }

    fn is_handled(&self) -> (r: bool)
        ensures
            r == self.handled_view(),
    {
        self.is_handled
    }

    fn set_handled(&mut self, handled: bool)
        ensures
            final(self).handled_view() == handled,
    {
        self.is_handled = handled;
    }
}

/// A key event that passed the debounce, re-published for other systems.
#[derive(Debug)]
pub struct ManagedKeyboardInput(pub KeyboardInput);

impl Clone for MappedInputEvent {
    /// A clone denotes the same actions and handled flag.
    fn clone(&self) -> (r: Self)
        ensures
            r.keys@ == self.keys@,
            r.is_handled == self.is_handled,
            r.keys.wf() == self.keys.wf(),
    {
        MappedInputEvent { keys: self.keys.clone(), is_handled: self.is_handled }
    }
}

/// The last seen direction of each physical key.
pub struct KeyStates {
    pub states: Vec<(u32, ButtonState)>,
}

/// The recorded direction of a key; a key never seen counts as released.
pub open spec fn key_state_of(s: Seq<(u32, ButtonState)>, key_code: u32) -> ButtonState
    decreases s.len(),
{
    if s.len() == 0 {
        ButtonState::Released
    } else if s.last().0 == key_code {
        s.last().1
    } else {
        key_state_of(s.drop_last(), key_code)
    }
}

impl KeyStates {
    pub open spec fn wf(self) -> bool {
        forall|i: int, j: int| 0 <= i < j < self.states@.len() ==> self.states@[i].0 != self.states@[j].0
    }

    pub fn new() -> (r: Self)
        ensures
            r.wf(),
            forall|k: u32| key_state_of(r.states@, k) == ButtonState::Released,
    {
        KeyStates { states: Vec::new() }
    }

    proof fn lemma_state_remove(s: Seq<(u32, ButtonState)>, i: int)
        requires
            0 <= i < s.len(),
            forall|p: int, q: int| 0 <= p < q < s.len() ==> s[p].0 != s[q].0,
        ensures
            forall|k: u32|
                #![trigger key_state_of(s.remove(i), k)]
                key_state_of(s.remove(i), k) == if k == s[i].0 {
                    ButtonState::Released
                } else {
                    key_state_of(s, k)
                },
        decreases s.len(),
    {
        assert forall|k: u32|
            #![trigger key_state_of(s.remove(i), k)]
            key_state_of(s.remove(i), k) == if k == s[i].0 {
                ButtonState::Released
            } else {
                key_state_of(s, k)
            } by {
            if i == s.len() - 1 {
                assert(s.remove(i) =~= s.drop_last());
                if k == s[i].0 {
                    assert forall|p: int| 0 <= p < s.drop_last().len()
                        implies s.drop_last()[p].0 != k by {
                        assert(s.drop_last()[p] == s[p]);
                    }
                    Self::lemma_state_absent(s.drop_last(), k);
                }
            } else {
                assert forall|p: int, q: int| 0 <= p < q < s.drop_last().len()
                    implies s.drop_last()[p].0 != s.drop_last()[q].0 by {
                    assert(s.drop_last()[p] == s[p]);
                    assert(s.drop_last()[q] == s[q]);
                }
                Self::lemma_state_remove(s.drop_last(), i);
                assert(s.remove(i).drop_last() =~= s.drop_last().remove(i));
                assert(s.remove(i).last() == s.last());
                assert(s.drop_last()[i] == s[i]);
                assert(key_state_of(s.drop_last().remove(i), k) == if k == s.drop_last()[i].0 {
                    ButtonState::Released
                } else {
                    key_state_of(s.drop_last(), k)
                });
                assert(s.remove(i).len() > 0);
                assert(key_state_of(s.remove(i), k) == if s.remove(i).last().0 == k {
                    s.remove(i).last().1
                } else {
                    key_state_of(s.remove(i).drop_last(), k)
                });
            }
        }
    }

    proof fn lemma_state_absent(s: Seq<(u32, ButtonState)>, k: u32)
        requires
            forall|p: int| 0 <= p < s.len() ==> s[p].0 != k,
        ensures
            key_state_of(s, k) == ButtonState::Released,
        decreases s.len(),
    {
        if s.len() > 0 {
            assert(forall|p: int| 0 <= p < s.drop_last().len() ==> s.drop_last()[p] == s[p]);
            Self::lemma_state_absent(s.drop_last(), k);
        }
    }

    /// Index of the entry recording `key_code`, if any.
    fn state_index(&self, key_code: u32) -> (r: Option<usize>)
        ensures
            match r {
                Some(i) => i < self.states@.len() && self.states@[i as int].0 == key_code,
                None => forall|j: int| 0 <= j < self.states@.len() ==> self.states@[j].0 != key_code,
            },
    {
        let n = self.states.len();
        let mut i: usize = 0;
        while i < n
            invariant
                n == self.states@.len(),
                i <= n,
                forall|j: int| 0 <= j < i ==> self.states@[j].0 != key_code,
            decreases n - i,
        {
            if self.states[i].0 == key_code {
                return Some(i);
            }
            i = i + 1;
        }
        None
    }

    /// Records a key's direction.  Returns the direction it replaces when
    /// the key actually changed, and nothing when it was already there.
    pub fn set_state(&mut self, key_code: u32, state: ButtonState) -> (r: Option<ButtonState>)
        requires
            old(self).wf(),
        ensures
            final(self).wf(),
            key_state_of(final(self).states@, key_code) == state,
            forall|k: u32|
                k != key_code ==> key_state_of(final(self).states@, k) == key_state_of(
                    old(self).states@,
                    k,
                ),
            r == if key_state_of(old(self).states@, key_code) != state {
                Some(key_state_of(old(self).states@, key_code))
            } else {
                None
            },
    {
        let ghost s0 = self.states@;
        let found_at = self.state_index(key_code);
        let mut prev = ButtonState::Released;
        if let Some(i) = found_at {
            prev = self.states[i].1;
            let ghost gi = i as int;
            proof {
                Self::lemma_state_find(s0, gi);
                Self::lemma_state_remove(s0, gi);
            }
            self.states.remove(i);
            let ghost s1 = self.states@;
            self.states.push((key_code, state));
            proof {
                assert(self.states@.drop_last() =~= s1);
                assert(s1 =~= s0.remove(gi));
                assert forall|k: u32| k != key_code implies key_state_of(self.states@, k)
                    == key_state_of(s0, k) by {
                    assert(key_state_of(self.states@, k) == key_state_of(s1, k));
                }
                assert forall|p: int, q: int| 0 <= p < q < self.states@.len()
                    implies self.states@[p].0 != self.states@[q].0 by {
                    if q == self.states@.len() - 1 {
                        let p0 = if p < gi { p } else { p + 1 };
                        assert(self.states@[p] == s1[p]);
                        assert(s1[p] == s0[p0]);
                    } else {
                        let p0 = if p < gi { p } else { p + 1 };
                        let q0 = if q < gi { q } else { q + 1 };
                        assert(self.states@[p] == s1[p] && s1[p] == s0[p0]);
                        assert(self.states@[q] == s1[q] && s1[q] == s0[q0]);
                    }
                }
            }
        } else {
            proof {
                Self::lemma_state_absent(s0, key_code);
            }
            self.states.push((key_code, state));
            proof {
                assert(self.states@.drop_last() =~= s0);
                assert forall|p: int, q: int| 0 <= p < q < self.states@.len()
                    implies self.states@[p].0 != self.states@[q].0 by {
                    if q == self.states@.len() - 1 {
                        assert(self.states@[p] == s0[p]);
                    } else {
                        assert(self.states@[p] == s0[p]);
                        assert(self.states@[q] == s0[q]);
                    }
                }
            }
        }
        if prev != state {
            Some(prev)
        } else {
            None
        }
    }

    proof fn lemma_state_find(s: Seq<(u32, ButtonState)>, i: int)
        requires
            0 <= i < s.len(),
            forall|p: int, q: int| 0 <= p < q < s.len() ==> s[p].0 != s[q].0,
        ensures
            key_state_of(s, s[i].0) == s[i].1,
        decreases s.len(),
    {
        if i < s.len() - 1 {
            assert(s.last().0 != s[i].0);
            assert forall|p: int, q: int| 0 <= p < q < s.drop_last().len()
                implies s.drop_last()[p].0 != s.drop_last()[q].0 by {
                assert(s.drop_last()[p] == s[p]);
                assert(s.drop_last()[q] == s[q]);
            }
            Self::lemma_state_find(s.drop_last(), i);
            assert(s.drop_last()[i] == s[i]);
        }
    }

    /// The recorded direction of a key.
    pub fn get_state(&self, key_code: u32) -> (r: ButtonState)
        requires
            self.wf(),
        ensures
            r == key_state_of(self.states@, key_code),
    {
        match self.state_index(key_code) {
            Some(i) => {
                proof {
                    Self::lemma_state_find(self.states@, i as int);
                }
                self.states[i].1
            },
            None => {
                proof {
                    Self::lemma_state_absent(self.states@, key_code);
                }
                ButtonState::Released
            },
        }
    }
}

impl Default for KeyStates {
    fn default() -> (r: Self)
        ensures
            r.wf(),
            forall|k: u32| key_state_of(r.states@, k) == ButtonState::Released,
    {
        KeyStates::new()
    }
}

/// A key event with its window slot cleared, as events are stored in the
/// bindings.
pub open spec fn normalize_input(e: KeyboardInput) -> KeyboardInput {
    KeyboardInput {
        key_code: e.key_code,
        logical_key: e.logical_key,
        state: e.state,
        repeat: e.repeat,
        window: PLACEHOLDER_ENTITY,
    }
}

/// Debounces one raw key event and maps it to actions: an event that does
/// not change its key's recorded direction is dropped; one that does is
/// re-published, and additionally becomes a named-action event when the
/// map binds its normalized form.
pub fn managed_keyboard_input_step(
    key_states: &mut KeyStates,
    maps: &InputMaps,
    event: &KeyboardInput,
) -> (r: (Option<MappedInputEvent>, Option<ManagedKeyboardInput>))
    requires
        old(key_states).wf(),
        maps.wf(),
    ensures
        final(key_states).wf(),
        key_state_of(final(key_states).states@, event.key_code) == event.state,
        forall|k: u32|
            k != event.key_code ==> key_state_of(final(key_states).states@, k) == key_state_of(
                old(key_states).states@,
                k,
            ),
        key_state_of(old(key_states).states@, event.key_code) == event.state ==> r.0 is None
            && r.1 is None,
        key_state_of(old(key_states).states@, event.key_code) != event.state ==> {
            &&& match r.1 {
                Some(m) => m.0 == normalize_input(*event),
                None => false,
            }
            &&& match r.0 {
                Some(me) => {
                    &&& cache_has(
                        maps.comparison_cache@,
                        InputValue::Keyboard(normalize_input(*event)),
                    )
                    &&& me.keys@ == cache_set(
                        maps.comparison_cache@,
                        InputValue::Keyboard(normalize_input(*event)),
                    )
                    &&& !me.is_handled
                },
                None => !cache_has(
                    maps.comparison_cache@,
                    InputValue::Keyboard(normalize_input(*event)),
                ),
            }
        },
{
    let changed = key_states.set_state(event.key_code, event.state);
    if changed.is_none() {
        return (None, None);
    }
    let mut normalized = event.clone();
    normalized.window = PLACEHOLDER_ENTITY;
    let value = InputValue::Keyboard(normalized);
    let mapped = match maps.cache_lookup(&value) {
        Some(names) => Some(MappedInputEvent { keys: names.clone(), is_handled: false }),
        None => None,
    };
    let managed = match value {
        InputValue::Keyboard(k) => Some(ManagedKeyboardInput(k)),
    };
    (mapped, managed)
}

/// An escape key press, as stored in the default bindings.
pub open spec fn escape_press() -> KeyboardInput {
    KeyboardInput {
        key_code: KEY_CODE_ESCAPE,
        logical_key: LogicalKey::Escape,
        state: ButtonState::Pressed,
        repeat: false,
        window: PLACEHOLDER_ENTITY,
    }
}

/// An enter key press, as stored in the default bindings.
pub open spec fn enter_press() -> KeyboardInput {
    KeyboardInput {
        key_code: KEY_CODE_ENTER,
        logical_key: LogicalKey::Enter,
        state: ButtonState::Pressed,
        repeat: false,
        window: PLACEHOLDER_ENTITY,
    }
}

fn make_escape_press() -> (r: KeyboardInput)
    ensures
        r == escape_press(),
{
    KeyboardInput {
        key_code: KEY_CODE_ESCAPE,
        logical_key: LogicalKey::Escape,
        state: ButtonState::Pressed,
        repeat: false,
        window: PLACEHOLDER_ENTITY,
    }
}

fn make_enter_press() -> (r: KeyboardInput)
    ensures
        r == enter_press(),
{
    KeyboardInput {
        key_code: KEY_CODE_ENTER,
        logical_key: LogicalKey::Enter,
        state: ButtonState::Pressed,
        repeat: false,
        window: PLACEHOLDER_ENTITY,
    }
}

impl Default for InputMaps {
    /// The stock bindings: escape cancels and releases focus, enter
    /// confirms.
    fn default() -> (r: Self)
        ensures
            r.wf(),
            r.inverted(),
            forall|k: Seq<char>, v: InputValue|
                #![trigger r.binds(k, v)]
                r.binds(k, v) <==> ((k == "ui_cancel"@ || k == "ui_focus_release"@)
                    && input_value_eq(InputValue::Keyboard(escape_press()), v)) || (k
                    == "ui_confirm"@ && input_value_eq(InputValue::Keyboard(enter_press()), v)),
    {
        let mut r = InputMaps::new();
        let ghost m0 = r;
        r.add_input_value("ui_cancel".to_owned(), InputValue::Keyboard(make_escape_press()));
        let ghost m1 = r;
        r.add_input_value("ui_confirm".to_owned(), InputValue::Keyboard(make_enter_press()));
        let ghost m2 = r;
        r.add_input_value(
            "ui_focus_release".to_owned(),
            InputValue::Keyboard(make_escape_press()),
        );
        let ghost m3 = r;
        r.recompute_cache();
        proof {
            assert forall|k: Seq<char>, v: InputValue|
                #![trigger r.binds(k, v)]
                r.binds(k, v) <==> ((k == "ui_cancel"@ || k == "ui_focus_release"@)
                    && input_value_eq(InputValue::Keyboard(escape_press()), v)) || (k
                    == "ui_confirm"@ && input_value_eq(InputValue::Keyboard(enter_press()), v)) by {
                assert(r.binds(k, v) == m3.binds(k, v));
                assert(m3.binds(k, v) == (m2.binds(k, v) || (k == "ui_focus_release"@
                    && input_value_eq(InputValue::Keyboard(escape_press()), v))));
                assert(m2.binds(k, v) == (m1.binds(k, v) || (k == "ui_confirm"@
                    && input_value_eq(InputValue::Keyboard(enter_press()), v))));
                assert(m1.binds(k, v) == (m0.binds(k, v) || (k == "ui_cancel"@
                    && input_value_eq(InputValue::Keyboard(escape_press()), v))));
                assert(!m0.binds(k, v));
            }
        }
        r
    }
}

} // verus!
