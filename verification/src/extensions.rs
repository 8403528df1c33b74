//! Type-indexed extension store.
//!
//! The store maps a type identity to at most one value of that type. The set
//! of storable types is a closed registry: each registered type carries a
//! distinct identity key and an injection into the tagged payload union
//! [`ExtensionValue`]. Entries are held behind shared reference-counted cells,
//! so cloning a store copies only the key-to-cell index; a payload is copied
//! privately only on the first mutable access while it is still shared.

use std::sync::Arc;
use vstd::prelude::*;

verus! {

/// Tagged union of every payload the extension store can hold.
#[derive(Debug, PartialEq, Eq)]
pub enum ExtensionValue {
    U32(u32),
    U64(u64),
    I64(i64),
    Flag(bool),
    Text(String),
}

/// The identity key carried by a payload: which registered type it belongs to.
pub open spec fn value_key(v: ExtensionValue) -> u64 {
    match v {
        ExtensionValue::U32(_) => 1,
        ExtensionValue::U64(_) => 2,
        ExtensionValue::I64(_) => 3,
        ExtensionValue::Flag(_) => 4,
        ExtensionValue::Text(_) => 5,
    }
}

impl Clone for ExtensionValue {
    /// Copies the payload; the copy is equal to the original.
    fn clone(&self) -> (res: Self)
        ensures
            res == *self,
    {
        match self {
            ExtensionValue::U32(x) => ExtensionValue::U32(*x),
            ExtensionValue::U64(x) => ExtensionValue::U64(*x),
            ExtensionValue::I64(x) => ExtensionValue::I64(*x),
            ExtensionValue::Flag(x) => ExtensionValue::Flag(*x),
            ExtensionValue::Text(s) => ExtensionValue::Text(s.clone()),
        }
    }
}

/// A type that can live in the extension store.
///
/// Each implementor owns a distinct identity key, an injection of its values
/// into [`ExtensionValue`], and the matching projection back out.
pub trait Extension: Sized {
    /// The identity key of this type: distinct for every registered type.
    spec fn key() -> u64;

    /// The payload that stands for `self` in the store.
    spec fn wrap_spec(self) -> ExtensionValue;

    /// The value a payload of this type stands for.
    spec fn unwrap_spec(v: ExtensionValue) -> Self;

    /// Wrapping is keyed by `key` and is undone exactly by `unwrap_spec`.
    proof fn law_round_trip(x: Self)
        ensures
            value_key(x.wrap_spec()) == Self::key(),
            Self::unwrap_spec(x.wrap_spec()) == x,
    ;

    /// The identity key, as a runtime value.
    fn key_value() -> (k: u64)
        ensures
            k == Self::key(),
    ;

    /// Injects `self` into the payload union.
    fn wrap(self) -> (v: ExtensionValue)
        ensures
            v == self.wrap_spec(),
    ;

    /// Projects a payload of this type back into an owned value.
    fn unwrap_value(v: ExtensionValue) -> (x: Self)
        requires
            value_key(v) == Self::key(),
        ensures
            x == Self::unwrap_spec(v),
    ;

    /// Borrows the value inside a payload of this type.
    fn borrow_value(v: &ExtensionValue) -> (x: &Self)
        requires
            value_key(*v) == Self::key(),
        ensures
            *x == Self::unwrap_spec(*v),
    ;

    /// Borrows the value inside a payload of this type mutably; whatever the
    /// caller writes through the borrow becomes the payload's new value.
    fn borrow_value_mut(v: &mut ExtensionValue) -> (x: &mut Self)
        requires
            value_key(*old(v)) == Self::key(),
        ensures
            *x == Self::unwrap_spec(*old(v)),
            *final(v) == (*final(x)).wrap_spec(),
    ;
}

impl Extension for u32 {
    open spec fn key() -> u64 {
        1
    }

    open spec fn wrap_spec(self) -> ExtensionValue {
        ExtensionValue::U32(self)
    }

    open spec fn unwrap_spec(v: ExtensionValue) -> u32 {
        match v {
            ExtensionValue::U32(x) => x,
            _ => vstd::pervasive::arbitrary(),
        }
    }

    proof fn law_round_trip(x: u32) {
    }

    fn key_value() -> (k: u64) {
        1
    }

    fn wrap(self) -> (v: ExtensionValue) {
        ExtensionValue::U32(self)
    }

    fn unwrap_value(v: ExtensionValue) -> (x: u32) {
        match v {
            ExtensionValue::U32(x) => x,
            _ => vstd::pervasive::unreached(),
        }
    }

    fn borrow_value(v: &ExtensionValue) -> (x: &u32) {
        match v {
            ExtensionValue::U32(x) => x,
            _ => vstd::pervasive::unreached(),
        }
    }

    fn borrow_value_mut(v: &mut ExtensionValue) -> (x: &mut u32) {
        match v {
            ExtensionValue::U32(x) => x,
            _ => vstd::pervasive::unreached(),
        }
    }
}

impl Extension for u64 {
    open spec fn key() -> u64 {
        2
    }

    open spec fn wrap_spec(self) -> ExtensionValue {
        ExtensionValue::U64(self)
    }

    open spec fn unwrap_spec(v: ExtensionValue) -> u64 {
        match v {
            ExtensionValue::U64(x) => x,
            _ => vstd::pervasive::arbitrary(),
        }
    }

    proof fn law_round_trip(x: u64) {
    }

    fn key_value() -> (k: u64) {
        2
    }

    fn wrap(self) -> (v: ExtensionValue) {
        ExtensionValue::U64(self)
    }

    fn unwrap_value(v: ExtensionValue) -> (x: u64) {
        match v {
            ExtensionValue::U64(x) => x,
            _ => vstd::pervasive::unreached(),
        }
    }

    fn borrow_value(v: &ExtensionValue) -> (x: &u64) {
        match v {
            ExtensionValue::U64(x) => x,
            _ => vstd::pervasive::unreached(),
        }
    }

    fn borrow_value_mut(v: &mut ExtensionValue) -> (x: &mut u64) {
        match v {
            ExtensionValue::U64(x) => x,
            _ => vstd::pervasive::unreached(),
        }
    }
}

impl Extension for i64 {
    open spec fn key() -> u64 {
        3
    }

    open spec fn wrap_spec(self) -> ExtensionValue {
        ExtensionValue::I64(self)
    }

    open spec fn unwrap_spec(v: ExtensionValue) -> i64 {
        match v {
            ExtensionValue::I64(x) => x,
            _ => vstd::pervasive::arbitrary(),
        }
    }

    proof fn law_round_trip(x: i64) {
    }

    fn key_value() -> (k: u64) {
        3
    }

    fn wrap(self) -> (v: ExtensionValue) {
        ExtensionValue::I64(self)
    }

    fn unwrap_value(v: ExtensionValue) -> (x: i64) {
        match v {
            ExtensionValue::I64(x) => x,
            _ => vstd::pervasive::unreached(),
        }
    }

    fn borrow_value(v: &ExtensionValue) -> (x: &i64) {
        match v {
            ExtensionValue::I64(x) => x,
            _ => vstd::pervasive::unreached(),
        }
    }

    fn borrow_value_mut(v: &mut ExtensionValue) -> (x: &mut i64) {
        match v {
            ExtensionValue::I64(x) => x,
            _ => vstd::pervasive::unreached(),
        }
    }
}

impl Extension for bool {
    open spec fn key() -> u64 {
        4
    }

    open spec fn wrap_spec(self) -> ExtensionValue {
        ExtensionValue::Flag(self)
    }

    open spec fn unwrap_spec(v: ExtensionValue) -> bool {
        match v {
            ExtensionValue::Flag(x) => x,
            _ => vstd::pervasive::arbitrary(),
        }
    }

    proof fn law_round_trip(x: bool) {
    }

    fn key_value() -> (k: u64) {
        4
    }

    fn wrap(self) -> (v: ExtensionValue) {
        ExtensionValue::Flag(self)
    }

    fn unwrap_value(v: ExtensionValue) -> (x: bool) {
        match v {
            ExtensionValue::Flag(x) => x,
            _ => vstd::pervasive::unreached(),
        }
    }

    fn borrow_value(v: &ExtensionValue) -> (x: &bool) {
        match v {
            ExtensionValue::Flag(x) => x,
            _ => vstd::pervasive::unreached(),
        }
    }

    fn borrow_value_mut(v: &mut ExtensionValue) -> (x: &mut bool) {
        match v {
            ExtensionValue::Flag(x) => x,
            _ => vstd::pervasive::unreached(),
        }
    }
}

impl Extension for String {
    open spec fn key() -> u64 {
        5
    }

    open spec fn wrap_spec(self) -> ExtensionValue {
        ExtensionValue::Text(self)
    }

    open spec fn unwrap_spec(v: ExtensionValue) -> String {
        match v {
            ExtensionValue::Text(s) => s,
            _ => vstd::pervasive::arbitrary(),
        }
    }

    proof fn law_round_trip(x: String) {
    }

    fn key_value() -> (k: u64) {
        5
    }

    fn wrap(self) -> (v: ExtensionValue) {
        ExtensionValue::Text(self)
    }

    fn unwrap_value(v: ExtensionValue) -> (x: String) {
        match v {
            ExtensionValue::Text(s) => s,
            _ => vstd::pervasive::unreached(),
        }
    }

    fn borrow_value(v: &ExtensionValue) -> (x: &String) {
        match v {
            ExtensionValue::Text(s) => s,
            _ => vstd::pervasive::unreached(),
        }
    }

    fn borrow_value_mut(v: &mut ExtensionValue) -> (x: &mut String) {
        match v {
            ExtensionValue::Text(s) => s,
            _ => vstd::pervasive::unreached(),
        }
    }
}

/// Relies on `Arc::try_unwrap`: it returns the inner value when the handle is
/// the last one, and hands the untouched handle back otherwise.
#[verifier::external_body]
fn arc_try_unwrap(a: Arc<ExtensionValue>) -> (r: Result<ExtensionValue, Arc<ExtensionValue>>)
    ensures
        match r {
            Ok(v) => v == a,
            Err(e) => e == a,
        },
{
    Arc::try_unwrap(a)
}

/// Relies on `Arc::make_mut`: it hands out exclusive access to the shared
/// value, first copying it with its `Clone` implementation when other handles
/// still share it; this crate's `Clone` for `ExtensionValue` is verified to
/// return an equal value.
#[verifier::external_body]
fn arc_make_mut(a: &mut Arc<ExtensionValue>) -> (r: &mut ExtensionValue)
    ensures
        *r == *old(a),
        *final(a) == *final(r),
{
    Arc::make_mut(a)
}

/// Takes the payload out of a shared cell: the inner value when this handle is
/// the last one, a copy of it otherwise.
fn take_payload(a: Arc<ExtensionValue>) -> (r: ExtensionValue)
    ensures
        r == a,
{
    match arc_try_unwrap(a) {
        Ok(v) => v,
        Err(shared) => (*shared).clone(),
    }
}

/// No two entries carry the same identity key.
pub open spec fn keys_distinct(s: Seq<(u64, Arc<ExtensionValue>)>) -> bool {
    forall|i: int, j: int|
        #![trigger s[i], s[j]]
        0 <= i < j < s.len() ==> s[i].0 != s[j].0
}

/// Every entry's payload belongs to the type its key names.
pub open spec fn entries_tagged(s: Seq<(u64, Arc<ExtensionValue>)>) -> bool {
    forall|i: int| 0 <= i < s.len() ==> value_key(*#[trigger] s[i].1) == s[i].0
}

/// The mapping from identity key to payload that an entry list denotes;
/// a later entry for a key shadows an earlier one.
pub open spec fn map_of(s: Seq<(u64, Arc<ExtensionValue>)>) -> Map<u64, ExtensionValue>
    decreases s.len(),
{
    if s.len() == 0 {
        Map::empty()
    } else {
        map_of(s.drop_last()).insert(s.last().0, *s.last().1)
    }
}

proof fn lemma_map_of_contains(s: Seq<(u64, Arc<ExtensionValue>)>, k: u64)
    ensures
        map_of(s).contains_key(k) <==> (exists|i: int| 0 <= i < s.len() && s[i].0 == k),
    decreases s.len(),
{
    if s.len() == 0 {
    } else {
        let dl = s.drop_last();
        lemma_map_of_contains(dl, k);
        if s.last().0 == k {
            assert(s[s.len() - 1].0 == k);
        } else if map_of(s).contains_key(k) {
            let i = choose|i: int| 0 <= i < dl.len() && dl[i].0 == k;
            assert(s[i].0 == k);
        } else {
            assert forall|i: int| 0 <= i < s.len() implies s[i].0 != k by {
                if i < s.len() - 1 {
                    assert(dl[i] == s[i]);
                }
            }
        }
    }
}

proof fn lemma_map_of_index(s: Seq<(u64, Arc<ExtensionValue>)>, i: int)
    requires
        keys_distinct(s),
        0 <= i < s.len(),
    ensures
        map_of(s).contains_key(s[i].0),
        map_of(s)[s[i].0] == *s[i].1,
    decreases s.len(),
{
    if i == s.len() - 1 {
    } else {
        let dl = s.drop_last();
        assert(keys_distinct(dl)) by {
            assert forall|x: int, y: int| 0 <= x < y < dl.len() implies dl[x].0 != dl[y].0 by {
                assert(dl[x] == s[x]);
                assert(dl[y] == s[y]);
            }
        }
        assert(dl[i] == s[i]);
        lemma_map_of_index(dl, i);
        assert(s[i].0 != s.last().0);
    }
}

proof fn lemma_map_of_push(s: Seq<(u64, Arc<ExtensionValue>)>, e: (u64, Arc<ExtensionValue>))
    ensures
        map_of(s.push(e)) == map_of(s).insert(e.0, *e.1),
{
    let t = s.push(e);
    assert(t.drop_last() =~= s);
    assert(t.last() == e);
}

proof fn lemma_map_of_remove(s: Seq<(u64, Arc<ExtensionValue>)>, i: int)
    requires
        keys_distinct(s),
        0 <= i < s.len(),
    ensures
        map_of(s.remove(i)) == map_of(s).remove(s[i].0),
        keys_distinct(s.remove(i)),
    decreases s.len(),
{
    let k = s[i].0;
    let t = s.remove(i);
    let dl = s.drop_last();
    s.remove_ensures(i);
    assert(keys_distinct(t)) by {
        assert forall|x: int, y: int| 0 <= x < y < t.len() implies t[x].0 != t[y].0 by {
            if x < i {
                assert(t[x] == s[x]);
            } else {
                assert(t[x] == s[x + 1]);
            }
            if y < i {
                assert(t[y] == s[y]);
            } else {
                assert(t[y] == s[y + 1]);
            }
        }
    }
    if i == s.len() - 1 {
        assert(t =~= dl);
        lemma_map_of_contains(dl, k);
        assert forall|x: int| 0 <= x < dl.len() implies dl[x].0 != k by {
            assert(dl[x] == s[x]);
        }
        assert(!map_of(dl).contains_key(k));
        assert(map_of(dl).insert(k, *s.last().1).remove(k) =~= map_of(dl));
    } else {
        assert(keys_distinct(dl)) by {
            assert forall|x: int, y: int| 0 <= x < y < dl.len() implies dl[x].0 != dl[y].0 by {
                assert(dl[x] == s[x]);
                assert(dl[y] == s[y]);
            }
        }
        assert(dl[i] == s[i]);
        lemma_map_of_remove(dl, i);
        assert(t.drop_last() =~= dl.remove(i));
        assert(t.last() == s.last());
        let lk = s.last().0;
        let lv = *s.last().1;
        assert(lk != k);
        assert(map_of(t) == map_of(dl).remove(k).insert(lk, lv));
        assert(map_of(dl).remove(k).insert(lk, lv) =~= map_of(dl).insert(lk, lv).remove(k));
        assert(map_of(s) == map_of(dl).insert(lk, lv));
    }
}

proof fn lemma_map_of_update(
    s: Seq<(u64, Arc<ExtensionValue>)>,
    i: int,
    e: (u64, Arc<ExtensionValue>),
)
    requires
        keys_distinct(s),
        0 <= i < s.len(),
        e.0 == s[i].0,
    ensures
        map_of(s.update(i, e)) == map_of(s).insert(e.0, *e.1),
        keys_distinct(s.update(i, e)),
    decreases s.len(),
{
    let t = s.update(i, e);
    let dl = s.drop_last();
    assert(keys_distinct(t)) by {
        assert forall|x: int, y: int| 0 <= x < y < t.len() implies t[x].0 != t[y].0 by {
            assert(t[x].0 == s[x].0);
            assert(t[y].0 == s[y].0);
        }
    }
    if i == s.len() - 1 {
        assert(t.drop_last() =~= dl);
        assert(t.last() == e);
        assert(map_of(s).insert(e.0, *e.1) =~= map_of(dl).insert(e.0, *e.1));
    } else {
        assert(keys_distinct(dl)) by {
            assert forall|x: int, y: int| 0 <= x < y < dl.len() implies dl[x].0 != dl[y].0 by {
                assert(dl[x] == s[x]);
                assert(dl[y] == s[y]);
            }
        }
        assert(dl[i] == s[i]);
        lemma_map_of_update(dl, i, e);
        assert(t.drop_last() =~= dl.update(i, e));
        assert(t.last() == s.last());
        let lk = s.last().0;
        let lv = *s.last().1;
        assert(lk != e.0);
        assert(map_of(t) == map_of(dl).insert(e.0, *e.1).insert(lk, lv));
        assert(map_of(dl).insert(e.0, *e.1).insert(lk, lv) =~= map_of(dl).insert(lk, lv).insert(
            e.0,
            *e.1,
        ));
        assert(map_of(s) == map_of(dl).insert(lk, lv));
    }
}

/// Type-indexed store: at most one value per registered type, entries shared
/// between clones until one side mutates.
#[derive(Debug)]
pub struct Extensions {
    entries: Vec<(u64, Arc<ExtensionValue>)>,
}

impl View for Extensions {
    type V = Map<u64, ExtensionValue>;

    closed spec fn view(&self) -> Map<u64, ExtensionValue> {
        map_of(self.entries@)
    }
}

impl Extensions {
    /// The store's structural invariant: one entry per key, each payload
    /// belonging to the type its key names.
    pub closed spec fn wf(&self) -> bool {
        keys_distinct(self.entries@) && entries_tagged(self.entries@)
    }

    /// Creates an empty store.
    pub fn new() -> (r: Extensions)
        ensures
            r.wf(),
            r@ == Map::<u64, ExtensionValue>::empty(),
    {
        Extensions { entries: Vec::new() }
    }

    /// Index of the entry stored under `k`, if any.
    fn find_index(&self, k: u64) -> (r: Option<usize>)
        requires
            self.wf(),
        ensures
            match r {
                Some(i) => i < self.entries@.len() && self.entries@[i as int].0 == k,
                None => !self@.contains_key(k),
            },
    {
        let n = self.entries.len();
        let mut i: usize = 0;
        while i < n
            invariant
                n == self.entries@.len(),
                i <= n,
                forall|j: int| 0 <= j < i ==> (#[trigger] self.entries@[j]).0 != k,
            decreases n - i,
        {
            if self.entries[i].0 == k {
                return Some(i);
            }
            i = i + 1;
        }
        proof {
            lemma_map_of_contains(self.entries@, k);
        }
        None
    }

    /// Stores `value` under the identity of `T`, returning the value of type
    /// `T` that was there before, if any.
    pub fn insert<T: Extension>(&mut self, value: T) -> (prior: Option<T>)
        requires
            old(self).wf(),
        ensures
            final(self).wf(),
            final(self)@ == old(self)@.insert(T::key(), value.wrap_spec()),
            match prior {
                Some(p) => old(self)@.contains_key(T::key()) && p == T::unwrap_spec(
                    old(self)@[T::key()],
                ),
                None => !old(self)@.contains_key(T::key()),
            },
    {
        proof {
            T::law_round_trip(value);
        }
        let k = T::key_value();
        let cell = Arc::new(value.wrap());
        match self.find_index(k) {
            Some(i) => {
                proof {
                    lemma_map_of_index(self.entries@, i as int);
                    lemma_map_of_remove(self.entries@, i as int);
                }
                let ghost s0 = self.entries@;
                let prior_entry = self.entries.remove(i);
                proof {
                    assert(entries_tagged(self.entries@)) by {
                        s0.remove_ensures(i as int);
                        assert forall|x: int|
                            0 <= x < self.entries@.len() implies value_key(
                            *#[trigger] self.entries@[x].1,
                        ) == self.entries@[x].0 by {
                            if x < i as int {
                                assert(self.entries@[x] == s0[x]);
                            } else {
                                assert(self.entries@[x] == s0[x + 1]);
                            }
                        }
                    }
                    lemma_map_of_contains(self.entries@, k);
                    lemma_map_of_push(self.entries@, (k, cell));
                    assert(old(self)@.remove(k).insert(k, value.wrap_spec()) =~= old(
                        self,
                    )@.insert(k, value.wrap_spec()));
                }
                self.entries.push((k, cell));
                proof {
                    assert(entries_tagged(self.entries@));
                    assert(keys_distinct(self.entries@)) by {
                        let t = self.entries@;
                        assert forall|x: int, y: int| 0 <= x < y < t.len() implies t[x].0
                            != t[y].0 by {}
                    }
                }
                let payload = take_payload(prior_entry.1);
                Some(T::unwrap_value(payload))
            },
            None => {
                proof {
                    lemma_map_of_contains(self.entries@, k);
                    lemma_map_of_push(self.entries@, (k, cell));
                }
                self.entries.push((k, cell));
                None
            },
        }
    }

    /// Borrows the stored value of type `T`, if any.
    pub fn get<T: Extension>(&self) -> (r: Option<&T>)
        requires
            self.wf(),
        ensures
            match r {
                Some(x) => self@.contains_key(T::key()) && *x == T::unwrap_spec(
                    self@[T::key()],
                ),
                None => !self@.contains_key(T::key()),
            },
    {
        let k = T::key_value();
        match self.find_index(k) {
            Some(i) => {
                proof {
                    lemma_map_of_index(self.entries@, i as int);
                }
                let entry = &self.entries[i];
                Some(T::borrow_value(&*entry.1))
            },
            None => None,
        }
    }

    /// Borrows the stored value of type `T` mutably, if any. If the payload is
    /// still shared with a clone of this store it is copied privately first,
    /// so writes through the borrow never reach any other store.
    pub fn get_mut<T: Extension>(&mut self) -> (r: Option<&mut T>)
        requires
            old(self).wf(),
        ensures
            match r {
                Some(x) => old(self)@.contains_key(T::key()) && *x == T::unwrap_spec(
                    old(self)@[T::key()],
                ) && final(self).wf() && final(self)@ == old(self)@.insert(
                    T::key(),
                    (*final(x)).wrap_spec(),
                ),
                None => !old(self)@.contains_key(T::key()) && *final(self) == *old(self),
            },
    {
        let k = T::key_value();
        match self.find_index(k) {
            Some(i) => {
                let ghost s0 = self.entries@;
                proof {
                    lemma_map_of_index(s0, i as int);
                    assert forall|e: (u64, Arc<ExtensionValue>)|
                        e.0 == k && value_key(*e.1) == e.0 implies (#[trigger] map_of(
                        s0.update(i as int, e),
                    )) == map_of(s0).insert(k, *e.1) && keys_distinct(s0.update(i as int, e))
                        && entries_tagged(s0.update(i as int, e)) by {
                        lemma_map_of_update(s0, i as int, e);
                        let t = s0.update(i as int, e);
                        assert forall|y: int| 0 <= y < t.len() implies value_key(
                            *#[trigger] t[y].1,
                        ) == t[y].0 by {
                            if y != i as int {
                                assert(t[y] == s0[y]);
                            }
                        }
                    }
                }
                let entry = &mut self.entries[i];
                let payload = arc_make_mut(&mut entry.1);
                let x = T::borrow_value_mut(payload);
                proof {
                    T::law_round_trip(*final(x));
                }
                Some(x)
            },
            None => None,
        }
    }

    /// Removes and returns the stored value of type `T`, if any.
    pub fn remove<T: Extension>(&mut self) -> (r: Option<T>)
        requires
            old(self).wf(),
        ensures
            final(self).wf(),
            final(self)@ == old(self)@.remove(T::key()),
            match r {
                Some(p) => old(self)@.contains_key(T::key()) && p == T::unwrap_spec(
                    old(self)@[T::key()],
                ),
                None => !old(self)@.contains_key(T::key()),
            },
    {
        let k = T::key_value();
        match self.find_index(k) {
            Some(i) => {
                proof {
                    lemma_map_of_index(self.entries@, i as int);
                    lemma_map_of_remove(self.entries@, i as int);
                }
                let ghost s0 = self.entries@;
                let entry = self.entries.remove(i);
                proof {
                    assert(entries_tagged(self.entries@)) by {
                        s0.remove_ensures(i as int);
                        assert forall|x: int|
                            0 <= x < self.entries@.len() implies value_key(
                            *#[trigger] self.entries@[x].1,
                        ) == self.entries@[x].0 by {
                            if x < i as int {
                                assert(self.entries@[x] == s0[x]);
                            } else {
                                assert(self.entries@[x] == s0[x + 1]);
                            }
                        }
                    }
                }
                let payload = take_payload(entry.1);
                Some(T::unwrap_value(payload))
            },
            None => {
                proof {
                    lemma_map_of_contains(self.entries@, k);
                    assert(old(self)@.remove(k) =~= old(self)@);
                }
                None
            },
        }
    }
}

impl Clone for Extensions {
    /// Copies the key-to-cell index only: the clone shares every payload with
    /// this store and observes exactly the same entries.
    fn clone(&self) -> (res: Self)
        ensures
            res@ == self@,
            res.wf() == self.wf(),
    {
        let n = self.entries.len();
        let mut out: Vec<(u64, Arc<ExtensionValue>)> = Vec::new();
        let mut i: usize = 0;
        while i < n
            invariant
                n == self.entries@.len(),
                i <= n,
                out@.len() == i as int,
                forall|j: int| 0 <= j < i ==> out@[j] == self.entries@[j],
            decreases n - i,
        {
            let entry = &self.entries[i];
            out.push((entry.0, entry.1.clone()));
            i = i + 1;
        }
        proof {
            assert(out@ =~= self.entries@);
        }
        Extensions { entries: out }
    }
}

/// Law: after a value of type `T` is stored, the entry for `T` holds exactly
/// that value; and a store with the entry for `T` removed has none left.
pub proof fn lemma_store_then_lookup<T: Extension>(m: Map<u64, ExtensionValue>, x: T)
    ensures
        m.insert(T::key(), x.wrap_spec()).contains_key(T::key()),
        T::unwrap_spec(m.insert(T::key(), x.wrap_spec())[T::key()]) == x,
        !m.remove(T::key()).contains_key(T::key()),
{
    T::law_round_trip(x);
}

/// Law: storing, rewriting, or removing a value of one type never changes
/// what a lookup of any other type observes.
pub proof fn lemma_store_type_isolation<T1: Extension, T2: Extension>(
    m: Map<u64, ExtensionValue>,
    x: T1,
)
    requires
        T1::key() != T2::key(),
    ensures
        m.insert(T1::key(), x.wrap_spec()).contains_key(T2::key()) == m.contains_key(T2::key()),
        m.contains_key(T2::key()) ==> m.insert(T1::key(), x.wrap_spec())[T2::key()] == m[
            T2::key()
        ],
        m.remove(T1::key()).contains_key(T2::key()) == m.contains_key(T2::key()),
        m.contains_key(T2::key()) ==> m.remove(T1::key())[T2::key()] == m[T2::key()],
{
}

/// Law: a second value stored for a type already present leaves only the
/// second one retrievable, while the first is exactly the prior value that the
/// second store operation reports.
pub proof fn lemma_store_replace<T: Extension>(m: Map<u64, ExtensionValue>, first: T, second: T)
    ensures
        T::unwrap_spec(m.insert(T::key(), first.wrap_spec())[T::key()]) == first,
        T::unwrap_spec(
            m.insert(T::key(), first.wrap_spec()).insert(T::key(), second.wrap_spec())[T::key()],
        ) == second,
{
    T::law_round_trip(first);
    T::law_round_trip(second);
}

} // verus!
