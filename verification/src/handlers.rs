use crate::event::AppEvent;
use crate::text::str_eq;
use vstd::prelude::*;

verus! {

/// How a module is known to the kernel: the address of its handler function.
pub type ModuleId = usize;

/// How many handlers one notify, or one hooked event, may have.
pub const MODS_STACK_LIMIT: usize = 20;

/// `s` without the occurrences of `m`, order kept.
pub open spec fn without(s: Seq<ModuleId>, m: ModuleId) -> Seq<ModuleId>
    decreases s.len(),
{
    if s.len() == 0 {
        s
    } else if s.last() == m {
        without(s.drop_last(), m)
    } else {
        without(s.drop_last(), m).push(s.last())
    }
}

pub proof fn lemma_without(s: Seq<ModuleId>, m: ModuleId)
    ensures
        forall|x: ModuleId| #[trigger] without(s, m).contains(x) <==> (s.contains(x) && x != m),
        without(s, m).len() <= s.len(),
        s.no_duplicates() ==> without(s, m).no_duplicates(),
        !s.contains(m) ==> without(s, m) == s,
        s.no_duplicates() && s.contains(m) ==> without(s, m).len() == s.len() - 1,
    decreases s.len(),
{
    if s.len() > 0 {
        let t = s.drop_last();
        lemma_without(t, m);
        assert forall|x: ModuleId| s.contains(x) <==> (t.contains(x) || x == s.last()) by {
            if s.contains(x) {
                let i = choose|i: int| 0 <= i < s.len() && s[i] == x;
                if i < s.len() - 1 {
                    assert(t[i] == x);
                }
            }
            if t.contains(x) {
                let i = choose|i: int| 0 <= i < t.len() && t[i] == x;
                assert(s[i] == x);
            }
            if x == s.last() {
                assert(s[s.len() - 1] == x);
            }
        }
        if s.no_duplicates() {
            assert(t.no_duplicates()) by {
                assert forall|i: int, j: int| 0 <= i < t.len() && 0 <= j < t.len() && i != j implies t[i]
                    != t[j] by {
                    assert(s[i] == t[i] && s[j] == t[j]);
                }
            }
            assert(!t.contains(s.last())) by {
                if t.contains(s.last()) {
                    let i = choose|i: int| 0 <= i < t.len() && t[i] == s.last();
                    assert(s[i] == s[s.len() - 1]);
                }
            }
        }
        if s.last() != m {
            let w = without(t, m);
            assert forall|x: ModuleId| #[trigger] w.push(s.last()).contains(x) <==> (w.contains(x)
                || x == s.last()) by {
                if w.push(s.last()).contains(x) {
                    let i = choose|i: int|
                        0 <= i < w.push(s.last()).len() && w.push(s.last())[i] == x;
                    if i < w.len() {
                        assert(w[i] == x);
                    }
                }
                if w.contains(x) {
                    let i = choose|i: int| 0 <= i < w.len() && w[i] == x;
                    assert(w.push(s.last())[i] == x);
                }
                if x == s.last() {
                    assert(w.push(s.last())[w.len() as int] == x);
                }
            }
            if s.no_duplicates() {
                assert(!w.contains(s.last()));
                assert(w.push(s.last()).no_duplicates()) by {
                    let v = w.push(s.last());
                    assert forall|i: int, j: int|
                        0 <= i < v.len() && 0 <= j < v.len() && i != j implies v[i] != v[j] by {
                        if i < w.len() && j < w.len() {
                            assert(v[i] == w[i] && v[j] == w[j]);
                        } else if i < w.len() {
                            assert(v[i] == w[i]);
                            assert(w.contains(v[i]));
                        } else if j < w.len() {
                            assert(v[j] == w[j]);
                            assert(w.contains(v[j]));
                        }
                    }
                }
            }
            if !s.contains(m) {
                assert(s =~= t.push(s.last()));
            }
        } else {
            assert(s.contains(m)) by {
                assert(s[s.len() - 1] == m);
            }
        }
    }
}

/// One notify, or one hooked event, and the modules that handle it.
pub struct HandlerEntry {
    pub event: AppEvent,
    pub notify: String,
    pub modules: Vec<ModuleId>,
}

/// The view of an entry: its key and its handler list.
pub open spec fn entry_view(e: HandlerEntry) -> (AppEvent, Seq<char>, Seq<ModuleId>) {
    (e.event, e.notify@, e.modules@)
}

/// The table with `m` taken off every handler list.
pub open spec fn strip(t: Seq<(AppEvent, Seq<char>, Seq<ModuleId>)>, m: ModuleId) -> Seq<
    (AppEvent, Seq<char>, Seq<ModuleId>),
> {
    t.map_values(|e: (AppEvent, Seq<char>, Seq<ModuleId>)| (e.0, e.1, without(e.2, m)))
}

/// Handler lists by event and notify, in the order in which their keys
/// were first registered.
pub struct HandlerTable {
    entries: Vec<HandlerEntry>,
}

/// The index of the entry for the key, if there is one.
pub open spec fn has_key(t: Seq<(AppEvent, Seq<char>, Seq<ModuleId>)>, ev: AppEvent, n: Seq<char>, i: int) -> bool {
    0 <= i < t.len() && t[i].0 == ev && t[i].1 == n
}

/// The handlers of a key; a key with no entry has none.
pub open spec fn handlers_of(
    t: Seq<(AppEvent, Seq<char>, Seq<ModuleId>)>,
    ev: AppEvent,
    n: Seq<char>,
) -> Seq<ModuleId> {
    if exists|i: int| has_key(t, ev, n, i) {
        t[choose|i: int| has_key(t, ev, n, i)].2
    } else {
        Seq::empty()
    }
}

/// Keys are unique, no module handles a key twice, and no key has more
/// than `MODS_STACK_LIMIT` handlers.
pub open spec fn table_wf(t: Seq<(AppEvent, Seq<char>, Seq<ModuleId>)>) -> bool {
    &&& forall|i: int, j: int|
        0 <= i < t.len() && 0 <= j < t.len() && i != j ==> !(t[i].0 == t[j].0 && t[i].1 == t[j].1)
    &&& forall|i: int| 0 <= i < t.len() ==> (#[trigger] t[i]).2.no_duplicates()
    &&& forall|i: int| 0 <= i < t.len() ==> (#[trigger] t[i]).2.len() <= MODS_STACK_LIMIT
}

pub proof fn lemma_handlers_at(t: Seq<(AppEvent, Seq<char>, Seq<ModuleId>)>, i: int)
    requires
        table_wf(t),
        0 <= i < t.len(),
    ensures
        handlers_of(t, t[i].0, t[i].1) == t[i].2,
{
    assert(has_key(t, t[i].0, t[i].1, i));
    let j = choose|j: int| has_key(t, t[i].0, t[i].1, j);
    assert(i == j);
}

pub proof fn lemma_handlers_wf(t: Seq<(AppEvent, Seq<char>, Seq<ModuleId>)>, ev: AppEvent, n: Seq<char>)
    requires
        table_wf(t),
    ensures
        handlers_of(t, ev, n).no_duplicates(),
        handlers_of(t, ev, n).len() <= MODS_STACK_LIMIT,
{
    if exists|i: int| has_key(t, ev, n, i) {
        let i = choose|i: int| has_key(t, ev, n, i);
        assert(t[i].2.no_duplicates());
    }
}

impl View for HandlerTable {
    type V = Seq<(AppEvent, Seq<char>, Seq<ModuleId>)>;

    closed spec fn view(&self) -> Self::V {
        self.entries@.map_values(|e: HandlerEntry| entry_view(e))
    }
}

impl HandlerTable {
    pub fn new() -> (res: Self)
        ensures
            res@ == Seq::<(AppEvent, Seq<char>, Seq<ModuleId>)>::empty(),
            table_wf(res@),
    {
        let res = HandlerTable { entries: Vec::new() };
        assert(res@ =~= Seq::<(AppEvent, Seq<char>, Seq<ModuleId>)>::empty());
        res
    }

    /// The index of the entry for the key.
    fn find(&self, ev: AppEvent, n: &str) -> (res: Option<usize>)
        ensures
            match res {
                Some(i) => has_key(self@, ev, n@, i as int),
                None => !exists|i: int| has_key(self@, ev, n@, i),
            },
    {
        let ghost v = self@;
        for i in 0..self.entries.len()
            invariant
                v == self@,
                v.len() == self.entries.len(),
                forall|j: int| 0 <= j < i ==> !has_key(v, ev, n@, j),
        {
            let e = &self.entries[i];
            assert(v[i as int] == entry_view(*e));
            if e.event == ev && str_eq(e.notify.as_str(), n) {
                return Some(i);
            }
        }
        None
    }

    /// A copy of the handlers of the key.
    pub fn handlers(&self, ev: AppEvent, n: &str) -> (res: Vec<ModuleId>)
        requires
            table_wf(self@),
        ensures
            res@ == handlers_of(self@, ev, n@),
    {
        match self.find(ev, n) {
            Some(i) => {
                proof {
                    lemma_handlers_at(self@, i as int);
                }
                assert(self@[i as int] == entry_view(self.entries@[i as int]));
                self.entries[i].modules.clone()
            },
            None => Vec::new(),
        }
    }

    /// Registers `m` as a handler of the key, after those there already are.
    /// Returns whether it was not registered before.
    pub fn add(&mut self, ev: AppEvent, n: &str, m: ModuleId) -> (res: bool)
        requires
            table_wf(old(self)@),
            handlers_of(old(self)@, ev, n@).contains(m) || handlers_of(old(self)@, ev, n@).len()
                < MODS_STACK_LIMIT,
        ensures
            table_wf(final(self)@),
            res == !handlers_of(old(self)@, ev, n@).contains(m),
            handlers_of(final(self)@, ev, n@) == if res {
                handlers_of(old(self)@, ev, n@).push(m)
            } else {
                handlers_of(old(self)@, ev, n@)
            },
            forall|e: AppEvent, k: Seq<char>|
                !(e == ev && k == n@) ==> handlers_of(final(self)@, e, k) == handlers_of(
                    old(self)@,
                    e,
                    k,
                ),
    {
        let ghost old_v = self@;
        let idx = match self.find(ev, n) {
            Some(i) => i,
            None => {
                let entry = HandlerEntry { event: ev, notify: n.to_owned(), modules: Vec::new() };
                self.entries.push(entry);
                let i = self.entries.len() - 1;
                proof {
                    let nv = self@;
                    assert(nv =~= old_v.push(entry_view(entry)));
                    assert(table_wf(nv)) by {
                        assert forall|a: int, b: int|
                            0 <= a < nv.len() && 0 <= b < nv.len() && a != b implies !(nv[a].0
                            == nv[b].0 && nv[a].1 == nv[b].1) by {
                            if a == nv.len() - 1 && nv[a].0 == nv[b].0 && nv[a].1 == nv[b].1 {
                                assert(has_key(old_v, ev, n@, b));
                            }
                            if b == nv.len() - 1 && nv[a].0 == nv[b].0 && nv[a].1 == nv[b].1 {
                                assert(has_key(old_v, ev, n@, a));
                            }
                        }
                        assert forall|a: int| 0 <= a < nv.len() implies (#[trigger] nv[a]).2.no_duplicates() by {
                            if a == nv.len() - 1 {
                                assert(nv[a].2 =~= Seq::<ModuleId>::empty());
                            } else {
                                assert(nv[a] == old_v[a]);
                            }
                        }
                    }
                    assert forall|e: AppEvent, k: Seq<char>| handlers_of(nv, e, k) == handlers_of(old_v, e, k) by {
                        if exists|a: int| has_key(nv, e, k, a) {
                            let a = choose|a: int| has_key(nv, e, k, a);
                            lemma_handlers_at(nv, a);
                            if a < old_v.len() {
                                assert(has_key(old_v, e, k, a));
                                lemma_handlers_at(old_v, a);
                            } else {
                                assert(!exists|b: int| has_key(old_v, e, k, b));
                            }
                        } else {
                            assert forall|b: int| !has_key(old_v, e, k, b) by {
                                if has_key(old_v, e, k, b) {
                                    assert(has_key(nv, e, k, b));
                                }
                            }
                        }
                    }
                    assert(has_key(nv, ev, n@, i as int));
                }
                i
            },
        };
        let ghost mid_v = self@;
        proof {
            lemma_handlers_at(mid_v, idx as int);
            assert(mid_v[idx as int] == entry_view(self.entries@[idx as int]));
        }
        let mut entry = self.entries.remove(idx);
        let mut found = false;
        for k in 0..entry.modules.len()
            invariant
                found == exists|t: int| 0 <= t < k && entry.modules@[t] == m,
        {
            if entry.modules[k] == m {
                found = true;
            }
        }
        assert(found == entry.modules@.contains(m));
        let ghost before = entry.modules@;
        if !found {
            entry.modules.push(m);
        }
        let ghost after = entry.modules@;
        proof {
            if !found {
                assert(after.no_duplicates()) by {
                    assert forall|a: int, b: int|
                        0 <= a < after.len() && 0 <= b < after.len() && a != b implies after[a]
                        != after[b] by {
                        if a < before.len() && b < before.len() {
                        } else if a < before.len() {
                            assert(before.contains(after[a]));
                        } else {
                            assert(before.contains(after[b]));
                        }
                    }
                }
            }
        }
        self.entries.insert(idx, entry);
        proof {
            let nv = self@;
            assert(nv =~= mid_v.update(idx as int, (ev, n@, after)));
            assert(table_wf(nv)) by {
                assert forall|a: int| 0 <= a < nv.len() implies (#[trigger] nv[a]).2.no_duplicates()
                    && nv[a].2.len() <= MODS_STACK_LIMIT by {
                    if a != idx {
                        assert(nv[a] == mid_v[a]);
                    }
                }
            }
            lemma_handlers_at(nv, idx as int);
            assert forall|e: AppEvent, k: Seq<char>| !(e == ev && k == n@) implies handlers_of(nv, e, k)
                == handlers_of(mid_v, e, k) by {
                if exists|a: int| has_key(nv, e, k, a) {
                    let a = choose|a: int| has_key(nv, e, k, a);
                    lemma_handlers_at(nv, a);
                    assert(a != idx);
                    assert(has_key(mid_v, e, k, a));
                    lemma_handlers_at(mid_v, a);
                } else {
                    assert forall|b: int| !has_key(mid_v, e, k, b) by {
                        if has_key(mid_v, e, k, b) {
                            assert(b != idx);
                            assert(has_key(nv, e, k, b));
                        }
                    }
                }
            }
        }
        !found
    }

    /// Takes `m` off the handlers of the key. Returns whether it was there.
    pub fn remove(&mut self, ev: AppEvent, n: &str, m: ModuleId) -> (res: bool)
        requires
            table_wf(old(self)@),
        ensures
            table_wf(final(self)@),
            res == handlers_of(old(self)@, ev, n@).contains(m),
            handlers_of(final(self)@, ev, n@) == without(handlers_of(old(self)@, ev, n@), m),
            forall|e: AppEvent, k: Seq<char>|
                !(e == ev && k == n@) ==> handlers_of(final(self)@, e, k) == handlers_of(
                    old(self)@,
                    e,
                    k,
                ),
    {
        let ghost old_v = self@;
        match self.find(ev, n) {
            None => {
                assert(without(Seq::<ModuleId>::empty(), m) =~= Seq::<ModuleId>::empty());
                false
            },
            Some(idx) => {
                proof {
                    lemma_handlers_at(old_v, idx as int);
                    assert(old_v[idx as int] == entry_view(self.entries@[idx as int]));
                }
                let mut entry = self.entries.remove(idx);
                let found = contains_module(&entry.modules, m);
                let kept = remove_value(&entry.modules, m);
                proof {
                    lemma_without(entry.modules@, m);
                }
                entry.modules = kept;
                self.entries.insert(idx, entry);
                proof {
                    let nv = self@;
                    assert(nv =~= old_v.update(idx as int, (ev, n@, without(old_v[idx as int].2, m))));
                    assert(table_wf(nv)) by {
                        assert forall|a: int| 0 <= a < nv.len() implies (#[trigger] nv[a]).2.no_duplicates()
                            && nv[a].2.len() <= MODS_STACK_LIMIT by {
                            if a != idx {
                                assert(nv[a] == old_v[a]);
                            }
                        }
                    }
                    lemma_handlers_at(nv, idx as int);
                    assert forall|e: AppEvent, k: Seq<char>| !(e == ev && k == n@) implies handlers_of(
                        nv,
                        e,
                        k,
                    ) == handlers_of(old_v, e, k) by {
                        if exists|a: int| has_key(nv, e, k, a) {
                            let a = choose|a: int| has_key(nv, e, k, a);
                            lemma_handlers_at(nv, a);
                            assert(has_key(old_v, e, k, a));
                            lemma_handlers_at(old_v, a);
                        } else {
                            assert forall|b: int| !has_key(old_v, e, k, b) by {
                                if has_key(old_v, e, k, b) {
                                    assert(has_key(nv, e, k, b));
                                }
                            }
                        }
                    }
                }
                found
            },
        }
    }

    /// Takes `m` off the handlers of every key.
    pub fn remove_everywhere(&mut self, m: ModuleId)
        requires
            table_wf(old(self)@),
        ensures
            table_wf(final(self)@),
            final(self)@ == strip(old(self)@, m),
            forall|e: AppEvent, k: Seq<char>|
                handlers_of(final(self)@, e, k) == without(handlers_of(old(self)@, e, k), m),
    {
        let ghost old_v = self@;
        let len = self.entries.len();
        for i in 0..len
            invariant
                len == self.entries.len(),
                self@.len() == old_v.len(),
                table_wf(old_v),
                forall|a: int|
                    0 <= a < i ==> #[trigger] self@[a] == (
                        old_v[a].0,
                        old_v[a].1,
                        without(old_v[a].2, m),
                    ),
                forall|a: int| i <= a < len ==> #[trigger] self@[a] == old_v[a],
        {
            let ghost cur = self@;
            assert(cur[i as int] == entry_view(self.entries@[i as int]));
            let mut entry = self.entries.remove(i);
            let kept = remove_value(&entry.modules, m);
            entry.modules = kept;
            self.entries.insert(i, entry);
            assert(self@ =~= cur.update(i as int, (old_v[i as int].0, old_v[i as int].1, without(old_v[i as int].2, m))));
        }
        proof {
            let nv = self@;
            assert forall|a: int| 0 <= a < nv.len() implies #[trigger] nv[a] == (
                old_v[a].0,
                old_v[a].1,
                without(old_v[a].2, m),
            ) by {}
            assert(nv =~= strip(old_v, m));
            lemma_strip(old_v, m);
        }
    }
}

/// Taking a module off every handler list keeps the table well formed, and
/// takes it off the handlers of each key.
pub proof fn lemma_strip(t: Seq<(AppEvent, Seq<char>, Seq<ModuleId>)>, m: ModuleId)
    requires
        table_wf(t),
    ensures
        table_wf(strip(t, m)),
        forall|e: AppEvent, k: Seq<char>|
            #[trigger] handlers_of(strip(t, m), e, k) == without(handlers_of(t, e, k), m),
{
    let nv = strip(t, m);
    assert(table_wf(nv)) by {
        assert forall|a: int| 0 <= a < nv.len() implies (#[trigger] nv[a]).2.no_duplicates()
            && nv[a].2.len() <= MODS_STACK_LIMIT by {
            lemma_without(t[a].2, m);
        }
        assert forall|a: int, b: int|
            0 <= a < nv.len() && 0 <= b < nv.len() && a != b implies !(nv[a].0 == nv[b].0
            && nv[a].1 == nv[b].1) by {
            assert(nv[a] == (t[a].0, t[a].1, without(t[a].2, m)));
            assert(nv[b] == (t[b].0, t[b].1, without(t[b].2, m)));
        }
    }
    assert forall|e: AppEvent, k: Seq<char>|
        #[trigger] handlers_of(nv, e, k) == without(handlers_of(t, e, k), m) by {
        if exists|a: int| has_key(t, e, k, a) {
            let a = choose|a: int| has_key(t, e, k, a);
            lemma_handlers_at(t, a);
            assert(nv[a] == (t[a].0, t[a].1, without(t[a].2, m)));
            assert(has_key(nv, e, k, a));
            lemma_handlers_at(nv, a);
        } else {
            assert(without(Seq::<ModuleId>::empty(), m) =~= Seq::<ModuleId>::empty());
            assert forall|b: int| !has_key(nv, e, k, b) by {
                if has_key(nv, e, k, b) {
                    assert(nv[b] == (t[b].0, t[b].1, without(t[b].2, m)));
                    assert(has_key(t, e, k, b));
                }
            }
        }
    }
}

/// Whether `m` is in `v`.
pub fn contains_module(v: &Vec<ModuleId>, m: ModuleId) -> (res: bool)
    ensures
        res == v@.contains(m),
{
    for k in 0..v.len()
        invariant
            forall|t: int| 0 <= t < k ==> v@[t] != m,
    {
        if v[k] == m {
            return true;
        }
    }
    false
}

/// A copy of `v` without `m`.
pub fn remove_value(v: &Vec<ModuleId>, m: ModuleId) -> (res: Vec<ModuleId>)
    ensures
        res@ == without(v@, m),
{
    let mut res: Vec<ModuleId> = Vec::new();
    for k in 0..v.len()
        invariant
            res@ == without(v@.take(k as int), m),
    {
        assert(v@.take(k + 1).drop_last() =~= v@.take(k as int));
        if v[k] != m {
            res.push(v[k]);
        }
    }
    assert(v@.take(v.len() as int) =~= v@);
    res
}

} // verus!