//! Reactive state cells.
//!
//! A `Signal` holds a value and the listeners subscribed to it. Setting the
//! value hands back the listeners to run, in the order they subscribed; the
//! host runs each of them with the new value. A `Signal` is one value: its
//! copies do not share writes. Shared cells live in a `SignalStore`, where a
//! handle is a key and every reader of a key sees the last write to it.

use vstd::prelude::*;

verus! {

/// A reactive value together with its subscribed listeners. Its key, when
/// it has one, identifies the shared cell it is a snapshot of; a signal
/// made on its own has none.
#[derive(Clone)]
pub struct Signal<T> {
    key: Option<u64>,
    value: T,
    listeners: Vec<u64>,
}

impl<T> Signal<T> {
    /// The current value.
    pub closed spec fn value(&self) -> T {
        self.value
    }

    /// The subscribed listeners, in subscription order.
    pub closed spec fn listeners(&self) -> Seq<u64> {
        self.listeners@
    }

    /// The key of the cell this signal is a snapshot of, if any.
    pub closed spec fn key_view(&self) -> Option<u64> {
        self.key
    }

    /// The key of the cell this signal is a snapshot of, if any.
    pub fn key(&self) -> (r: Option<u64>)
        ensures
            r == self.key_view(),
    {
        self.key
    }
}

impl<T: Clone> Signal<T> {
    /// A signal holding `initial_value`, with no listener.
    pub fn new(initial_value: T) -> (s: Self)
        ensures
            s.value() == initial_value,
            s.listeners() == Seq::<u64>::empty(),
            s.key_view() is None,
    {
        Signal { key: None, value: initial_value, listeners: Vec::new() }
    }

    /// A signal for the host's cell `key`, holding `initial_value`, with no
    /// listener.
    pub fn with_key(key: u64, initial_value: T) -> (s: Self)
        ensures
            s.value() == initial_value,
            s.listeners() == Seq::<u64>::empty(),
            s.key_view() == Some(key),
    {
        Signal { key: Some(key), value: initial_value, listeners: Vec::new() }
    }

    /// A copy of the current value.
    pub fn get(&self) -> (r: T)
        ensures
            cloned(self.value(), r),
    {
        self.value.clone()
    }

    /// Stores `new_value` and returns the listeners to notify of it, in the
    /// order in which they subscribed.
    pub fn set(&mut self, new_value: T) -> (notify: Vec<u64>)
        ensures
            final(self).value() == new_value,
            final(self).listeners() == old(self).listeners(),
            final(self).key_view() == old(self).key_view(),
            notify@ == old(self).listeners(),
    {
        self.value = new_value;
        self.listeners.clone()
    }

    /// Adds `listener` after the listeners already subscribed.
    pub fn subscribe(&mut self, listener: u64)
        ensures
            final(self).value() == old(self).value(),
            final(self).listeners() == old(self).listeners().push(listener),
            final(self).key_view() == old(self).key_view(),
    {
        self.listeners.push(listener);
    }
}

/// A new signal holding `initial`.
pub fn use_state<T: Clone>(initial: T) -> (s: Signal<T>)
    ensures
        s.value() == initial,
        s.listeners() == Seq::<u64>::empty(),
        s.key_view() is None,
{
    Signal::new(initial)
}

/// A signal derived from the single value `dep`: it starts as `calc` of
/// `dep`'s value, and `listener` (the host's callback that recomputes it
/// with `calc`) is subscribed to `dep`. Shared cells whose derived values
/// the library itself keeps in step are `SignalStore::derive`.
pub fn use_memo<T: Clone, U: Clone, F: Fn(&T) -> U>(dep: &mut Signal<T>, calc: F, listener: u64) -> (memo: Signal<U>)
    requires
        call_requires(calc, (&old(dep).value(),)),
    ensures
        call_ensures(calc, (&old(dep).value(),), memo.value()),
        memo.listeners() == Seq::<u64>::empty(),
        final(dep).value() == old(dep).value(),
        final(dep).listeners() == old(dep).listeners().push(listener),
        final(dep).key_view() == old(dep).key_view(),
        memo.key_view() is None,
{
    let first = calc(&dep.value);
    let memo = use_state(first);
    dep.subscribe(listener);
    memo
}

/// Runs `effect` on the single value `dep`, and subscribes `listener` (the
/// host's callback that runs `effect` again on each new value) to `dep`.
/// On shared cells, `SignalStore::derive` with an effecting function runs
/// it on every write itself.
pub fn use_effect<T: Clone, F: FnMut(&T)>(dep: &mut Signal<T>, effect: F, listener: u64)
    requires
        call_requires(effect, (&old(dep).value(),)),
    ensures
        call_ensures(effect, (&old(dep).value(),), ()),
        final(dep).value() == old(dep).value(),
        final(dep).listeners() == old(dep).listeners().push(listener),
        final(dep).key_view() == old(dep).key_view(),
{
    let mut effect = effect;
    effect(&dep.value);
    dep.subscribe(listener);
}

/// A read gives back what a write wrote: after `set(v)` the signal's value
/// is `v`, and reading a `String` signal (a clone of its value) gives `v`
/// itself.
pub proof fn law_read_after_write(after: Signal<String>, v: String, read: String)
    requires
        after.value() == v,
        cloned(after.value(), read),
    ensures
        read == v,
{
}

/// The cells of a store after writing `v` to cell `k`: its value changes,
/// its listeners and every other cell stay.
pub open spec fn written<T>(cells: Seq<(T, Seq<u64>)>, k: int, v: T) -> Seq<(T, Seq<u64>)> {
    cells.update(k, (v, cells[k].1))
}

/// The cells that a write to cell `k` recomputes, in the order their links
/// were made: every cell derived from `k`, and every cell derived from one
/// of those, and so on.
pub open spec fn targets_of<F>(links: Seq<(usize, usize, F)>, k: usize) -> Seq<usize>
    decreases links.len(),
{
    if links.len() == 0 {
        Seq::<usize>::empty()
    } else {
        let r = targets_of(links.drop_last(), k);
        if links.last().0 == k || r.contains(links.last().0) {
            r.push(links.last().1)
        } else {
            r
        }
    }
}

/// Whether the `i`-th link is recomputed by a write to `k`: its source is
/// `k` or a cell recomputed by an earlier link.
pub open spec fn recomputed<F>(links: Seq<(usize, usize, F)>, k: usize, i: int) -> bool {
    links[i].0 == k || targets_of(links.take(i), k).contains(links[i].0)
}

fn contains_key(v: &Vec<usize>, x: usize) -> (r: bool)
    ensures
        r == v@.contains(x),
{
    let mut i: usize = 0;
    while i < v.len()
        invariant
            i <= v.len(),
            forall|w: int| 0 <= w < i ==> v@[w] != x,
        decreases v.len() - i,
    {
        if v[i] == x {
            assert(v@[i as int] == x);
            return true;
        }
        i = i + 1;
    }
    false
}

/// Reactive cells shared by key, some derived from others. A handle to a
/// cell is its key: a write through any handle is what every reader of that
/// key sees next. A derived cell holds `calc` of the cell it derives from;
/// writing that cell recomputes it. Each write hands back the written
/// cell's listeners (in subscription order) for the host to run.
pub struct SignalStore<T, F> {
    cells: Vec<Signal<T>>,
    links: Vec<(usize, usize, F)>,
}

impl<T, F> SignalStore<T, F> {
    /// Each cell's value and listeners, by key.
    pub closed spec fn view(&self) -> Seq<(T, Seq<u64>)> {
        self.cells@.map_values(|c: Signal<T>| (c.value(), c.listeners()))
    }

    /// The derivations: source cell, derived cell and the function that
    /// computes the derived value, in the order they were made.
    pub closed spec fn links(&self) -> Seq<(usize, usize, F)> {
        self.links@
    }

    proof fn lemma_view_at(&self, k: int)
        requires
            0 <= k < self.cells@.len(),
        ensures
            self.view().len() == self.cells@.len(),
            self.view()[k] == (self.cells@[k].value(), self.cells@[k].listeners()),
    {
    }

    /// The number of cells.
    pub fn len(&self) -> (r: usize)
        ensures
            r == self.view().len(),
    {
        self.cells.len()
    }
}

impl<T: Clone, F: Fn(&T) -> T> SignalStore<T, F> {
    /// Every derivation goes from an older cell to a newer one, each cell
    /// is derived at most once, and every derivation's function accepts any
    /// value.
    pub closed spec fn wf(&self) -> bool {
        &&& forall|i: int|
            0 <= i < self.links@.len() ==> #[trigger] self.links@[i].0 < self.links@[i].1 < self.cells@.len()
        &&& forall|i: int, j: int|
            0 <= i < j < self.links@.len() ==> #[trigger] self.links@[i].1 != #[trigger] self.links@[j].1
        &&& forall|i: int, j: int|
            0 <= i < self.links@.len() && 0 <= j < self.links@.len() && #[trigger] self.links@[i].1
                == #[trigger] self.links@[j].0 ==> i < j
        &&& forall|i: int, x: T| 0 <= i < self.links@.len() ==> #[trigger] call_requires(self.links@[i].2, (&x,))
    }

    /// A store without cells.
    pub fn new() -> (s: Self)
        ensures
            s.wf(),
            s.view() == Seq::<(T, Seq<u64>)>::empty(),
            s.links() == Seq::<(usize, usize, F)>::empty(),
    {
        let s = SignalStore { cells: Vec::new(), links: Vec::new() };
        assert(s.view() =~= Seq::<(T, Seq<u64>)>::empty());
        s
    }

    /// Adds a cell holding `value`, with no listener; its key is the number
    /// of cells before.
    pub fn create(&mut self, value: T) -> (k: usize)
        requires
            old(self).wf(),
        ensures
            final(self).wf(),
            k == old(self).view().len(),
            final(self).view() == old(self).view().push((value, Seq::<u64>::empty())),
            final(self).links() == old(self).links(),
    {
        let k = self.cells.len();
        let ghost before = self.view();
        self.cells.push(Signal::with_key(k as u64, value));
        assert(self.view() =~= before.push((value, Seq::<u64>::empty())));
        k
    }

    /// A copy of the value of cell `k`.
    pub fn get(&self, k: usize) -> (r: T)
        requires
            k < self.view().len(),
        ensures
            cloned(self.view()[k as int].0, r),
    {
        proof {
            self.lemma_view_at(k as int);
        }
        self.cells[k].get()
    }

    /// The listeners of cell `k`, in subscription order.
    pub fn listeners(&self, k: usize) -> (r: Vec<u64>)
        requires
            k < self.view().len(),
        ensures
            r@ == self.view()[k as int].1,
    {
        proof {
            self.lemma_view_at(k as int);
        }
        self.cells[k].listeners.clone()
    }

    /// A snapshot of cell `k` as a signal keyed `k`, for nodes to hold.
    pub fn signal(&self, k: usize) -> (r: Signal<T>)
        requires
            k < self.view().len(),
        ensures
            r.key_view() == Some(k as u64),
            cloned(self.view()[k as int].0, r.value()),
            r.listeners() == self.view()[k as int].1,
    {
        proof {
            self.lemma_view_at(k as int);
        }
        let c = &self.cells[k];
        let mut r = Signal::with_key(k as u64, c.get());
        let mut i: usize = 0;
        while i < c.listeners.len()
            invariant
                i <= c.listeners.len(),
                r.key_view() == Some(k as u64),
                cloned(c.value(), r.value()),
                r.listeners() == c.listeners().take(i as int),
            decreases c.listeners.len() - i,
        {
            r.subscribe(c.listeners[i]);
            assert(c.listeners().take(i + 1) =~= c.listeners().take(i as int).push(c.listeners()[i as int]));
            i = i + 1;
        }
        assert(c.listeners().take(i as int) =~= c.listeners());
        r
    }

    /// Writes one cell, leaving the derivations alone.
    fn write(&mut self, k: usize, value: T) -> (notify: Vec<u64>)
        requires
            k < old(self).view().len(),
        ensures
            final(self).view() == written(old(self).view(), k as int, value),
            final(self).links@ == old(self).links@,
            final(self).cells@.len() == old(self).cells@.len(),
            notify@ == old(self).view()[k as int].1,
    {
        let ghost before = self.view();
        let ghost cells0 = self.cells@;
        proof {
            self.lemma_view_at(k as int);
        }
        let mut c = self.cells.remove(k);
        let notify = c.set(value);
        self.cells.insert(k, c);
        assert(self.cells@ =~= cells0.update(k as int, c));
        assert(self.view() =~= written(before, k as int, value));
        notify
    }

    /// Writes `value` to cell `k` and recomputes, in the order their links
    /// were made, every cell that depends on it: each cell derived from `k`
    /// or from a cell recomputed before it. Returns the listeners of `k`
    /// (in subscription order) and the keys of the recomputed cells, whose
    /// listeners the host runs next.
    pub fn set(&mut self, k: usize, value: T) -> (r: (Vec<u64>, Vec<usize>))
        requires
            old(self).wf(),
            k < old(self).view().len(),
        ensures
            final(self).wf(),
            final(self).links() == old(self).links(),
            final(self).view().len() == old(self).view().len(),
            final(self).view()[k as int].0 == value,
            forall|i: int|
                0 <= i < old(self).links().len() && #[trigger] recomputed(old(self).links(), k, i) ==> call_ensures(
                    old(self).links()[i].2,
                    (&final(self).view()[old(self).links()[i].0 as int].0,),
                    final(self).view()[old(self).links()[i].1 as int].0,
                ),
            forall|j: int|
                0 <= j < old(self).view().len() && j != k && !targets_of(old(self).links(), k).contains(j as usize)
                    ==> #[trigger] final(self).view()[j].0 == old(self).view()[j].0,
            forall|j: int| 0 <= j < old(self).view().len() ==> #[trigger] final(self).view()[j].1 == old(self).view()[j].1,
            r.0@ == old(self).view()[k as int].1,
            r.1@ == targets_of(old(self).links(), k),
    {
        let ghost links = self.links@;
        let ghost before = self.view();
        let notify = self.write(k, value);
        let mut touched: Vec<usize> = Vec::new();
        let mut i: usize = 0;
        while i < self.links.len()
            invariant
                self.links@ == links,
                self.cells@.len() == before.len(),
                k < before.len(),
                0 <= i <= links.len(),
                forall|a: int| 0 <= a < links.len() ==> #[trigger] links[a].0 < links[a].1 < before.len(),
                forall|a: int, b: int| 0 <= a < b < links.len() ==> #[trigger] links[a].1 != #[trigger] links[b].1,
                forall|a: int, b: int|
                    0 <= a < links.len() && 0 <= b < links.len() && #[trigger] links[a].1 == #[trigger] links[b].0
                        ==> a < b,
                forall|a: int, x: T| 0 <= a < links.len() ==> #[trigger] call_requires(links[a].2, (&x,)),
                self.view().len() == before.len(),
                self.view()[k as int].0 == value,
                touched@ == targets_of(links.take(i as int), k),
                forall|w: int| 0 <= w < touched@.len() ==> #[trigger] touched@[w] > k,
                forall|w: int|
                    0 <= w < touched@.len() ==> exists|a: int| 0 <= a < i && #[trigger] links[a].1 == #[trigger] touched@[w],
                forall|a: int|
                    0 <= a < i && #[trigger] recomputed(links, k, a) ==> call_ensures(
                        links[a].2,
                        (&self.view()[links[a].0 as int].0,),
                        self.view()[links[a].1 as int].0,
                    ),
                forall|j: int|
                    0 <= j < before.len() && j != k && !touched@.contains(j as usize) ==> #[trigger] self.view()[j].0
                        == before[j].0,
                forall|j: int| 0 <= j < before.len() ==> #[trigger] self.view()[j].1 == before[j].1,
            decreases links.len() - i,
        {
            let ghost prev = self.view();
            let ghost prev_touched = touched@;
            assert(links.take(i + 1).drop_last() =~= links.take(i as int));
            assert(links.take(i + 1).last() == links[i as int]);
            let src = self.links[i].0;
            if src == k || contains_key(&touched, src) {
                assert(recomputed(links, k, i as int));
                let t = self.links[i].1;
                assert(t > k) by {
                    if src != k {
                        let w = choose|w: int| 0 <= w < prev_touched.len() && prev_touched[w] == src;
                        assert(prev_touched[w] > k);
                    }
                }
                proof {
                    self.lemma_view_at(src as int);
                }
                let nv = (self.links[i].2)(&self.cells[src].value);
                self.write(t, nv);
                touched.push(t);
                proof {
                    assert(targets_of(links.take(i + 1), k) == prev_touched.push(t));
                    assert forall|w: int| 0 <= w < touched@.len() implies #[trigger] touched@[w] > k by {
                        if w < prev_touched.len() {
                            assert(touched@[w] == prev_touched[w]);
                        }
                    }
                    assert forall|w: int| #![trigger touched@[w]] 0 <= w < touched@.len() implies exists|a: int|
                        0 <= a < i + 1 && #[trigger] links[a].1 == touched@[w] by {
                        if w < prev_touched.len() {
                            assert(touched@[w] == prev_touched[w]);
                            let a = choose|a: int| 0 <= a < i && #[trigger] links[a].1 == prev_touched[w];
                            assert(links[a].1 == touched@[w]);
                        } else {
                            assert(links[i as int].1 == touched@[w]);
                        }
                    }
                    assert forall|a: int|
                        0 <= a < i + 1 && #[trigger] recomputed(links, k, a) implies call_ensures(
                        links[a].2,
                        (&self.view()[links[a].0 as int].0,),
                        self.view()[links[a].1 as int].0,
                    ) by {
                        if a < i {
                            assert(links[a].1 != links[i as int].1);
                            if links[a].0 == t {
                                assert(links[i as int].1 == links[a].0);
                            }
                        }
                    }
                    assert forall|j: int|
                        0 <= j < before.len() && j != k && !touched@.contains(j as usize)
                            implies #[trigger] self.view()[j].0 == before[j].0 by {
                        assert(touched@.last() == t);
                        if prev_touched.contains(j as usize) {
                            let w = choose|w: int| 0 <= w < prev_touched.len() && prev_touched[w] == j as usize;
                            assert(touched@[w] == j as usize);
                        }
                    }
                }
            } else {
                proof {
                    assert(!recomputed(links, k, i as int));
                    assert(targets_of(links.take(i + 1), k) == targets_of(links.take(i as int), k));
                }
            }
            i = i + 1;
        }
        assert(links.take(i as int) =~= links);
        (notify, touched)
    }

    /// Subscribes `listener` to cell `k`, after its earlier listeners.
    pub fn subscribe(&mut self, k: usize, listener: u64)
        requires
            old(self).wf(),
            k < old(self).view().len(),
        ensures
            final(self).wf(),
            final(self).links() == old(self).links(),
            final(self).view() == old(self).view().update(
                k as int,
                (old(self).view()[k as int].0, old(self).view()[k as int].1.push(listener)),
            ),
    {
        let ghost before = self.view();
        let ghost cells0 = self.cells@;
        proof {
            self.lemma_view_at(k as int);
        }
        let mut c = self.cells.remove(k);
        c.subscribe(listener);
        self.cells.insert(k, c);
        assert(self.cells@ =~= cells0.update(k as int, c));
        assert(self.view() =~= before.update(k as int, (before[k as int].0, before[k as int].1.push(listener))));
    }

    /// Adds a cell derived from cell `dep` by `calc`: it starts as `calc` of
    /// `dep`'s value, and every later write to `dep` recomputes it. Its key
    /// is the number of cells before.
    pub fn derive(&mut self, dep: usize, calc: F) -> (m: usize)
        requires
            old(self).wf(),
            dep < old(self).view().len(),
            forall|x: T| call_requires(calc, (&x,)),
        ensures
            final(self).wf(),
            m == old(self).view().len(),
            final(self).view().len() == m + 1,
            final(self).view().take(m as int) == old(self).view(),
            call_ensures(calc, (&old(self).view()[dep as int].0,), final(self).view()[m as int].0),
            final(self).view()[m as int].1 == Seq::<u64>::empty(),
            final(self).links() == old(self).links().push((dep, m, calc)),
    {
        proof {
            self.lemma_view_at(dep as int);
        }
        let first = calc(&self.cells[dep].value);
        let ghost before = self.view();
        let ghost lb = self.links@;
        let ghost old_len = self.cells@.len();
        assert forall|i: int| 0 <= i < lb.len() implies #[trigger] lb[i].1 < old_len by {
            assert(self.links@[i].0 < self.links@[i].1 < self.cells@.len());
        }
        let m = self.create(first);
        assert(self.links@ == lb);
        let ghost links0 = self.links@;
        self.links.push((dep, m, calc));
        assert(self.view().take(m as int) =~= before);
        assert(self.links@ == links0.push((dep, m, calc)));
        assert forall|i: int| 0 <= i < self.links@.len() implies #[trigger] self.links@[i].0 < self.links@[i].1
            < self.cells@.len() by {
            if i < links0.len() {
                assert(self.links@[i] == links0[i]);
            }
        }
        assert forall|i: int, j: int| 0 <= i < j < self.links@.len() implies #[trigger] self.links@[i].1
            != #[trigger] self.links@[j].1 by {
            assert(self.links@[i] == links0[i]);
            assert(links0[i].1 < old_len);
            if j < links0.len() {
                assert(self.links@[j] == links0[j]);
            }
        }
        assert forall|i: int, j: int|
            0 <= i < self.links@.len() && 0 <= j < self.links@.len() && #[trigger] self.links@[i].1
                == #[trigger] self.links@[j].0 implies i < j by {
            if j < links0.len() {
                assert(self.links@[j] == links0[j]);
                assert(links0[j].0 < links0[j].1 < old_len);
                if i < links0.len() {
                    assert(self.links@[i] == links0[i]);
                } else {
                    assert(self.links@[i].1 == m);
                }
            }
        }
        assert forall|i: int, x: T| 0 <= i < self.links@.len() implies #[trigger] call_requires(
            self.links@[i].2,
            (&x,),
        ) by {
            if i < links0.len() {
                assert(self.links@[i] == links0[i]);
            }
        }
        m
    }
}

proof fn lemma_targets_prefix<F>(links: Seq<(usize, usize, F)>, k: usize, m: int, n: int, x: usize)
    requires
        0 <= m <= n <= links.len(),
        targets_of(links.take(m), k).contains(x),
    ensures
        targets_of(links.take(n), k).contains(x),
    decreases n - m,
{
    if m < n {
        lemma_targets_prefix(links, k, m, n - 1, x);
        let p = links.take(n);
        assert(p.drop_last() =~= links.take(n - 1));
        let r = targets_of(links.take(n - 1), k);
        let w = choose|w: int| 0 <= w < r.len() && r[w] == x;
        if p.last().0 == k || r.contains(p.last().0) {
            assert(r.push(p.last().1)[w] == x);
        }
    }
}

proof fn lemma_targets_origin<F>(links: Seq<(usize, usize, F)>, k: usize, n: int, x: usize)
    requires
        0 <= n <= links.len(),
        targets_of(links.take(n), k).contains(x),
    ensures
        exists|a: int| 0 <= a < n && #[trigger] links[a].1 == x && targets_of(links.take(a + 1), k).contains(x),
    decreases n,
{
    let p = links.take(n);
    if n == 0 {
        assert(p =~= Seq::<(usize, usize, F)>::empty());
    } else {
        assert(p.drop_last() =~= links.take(n - 1));
        assert(p.last() == links[n - 1]);
        let r = targets_of(links.take(n - 1), k);
        if r.contains(x) {
            lemma_targets_origin(links, k, n - 1, x);
        } else {
            assert(links[n - 1].1 == x);
            assert(links.take(n) =~= links.take((n - 1) + 1));
        }
    }
}

/// A write reaches every cell that depends on the written one, however long
/// the chain of derivations: for every link whose source is the written
/// cell, or a cell the write recomputes, the write recomputes the link (so
/// `set` states its result) and its derived cell is among those recomputed.
pub proof fn law_recompute_closed<T: Clone, F: Fn(&T) -> T>(store: SignalStore<T, F>, k: usize, i: int)
    requires
        store.wf(),
        0 <= i < store.links().len(),
        store.links()[i].0 == k || targets_of(store.links(), k).contains(store.links()[i].0),
    ensures
        recomputed(store.links(), k, i),
        targets_of(store.links(), k).contains(store.links()[i].1),
{
    let links = store.links();
    let src = links[i].0;
    assert(links.take(links.len() as int) =~= links);
    if src != k {
        lemma_targets_origin(links, k, links.len() as int, src);
        let a = choose|a: int| 0 <= a < links.len() && #[trigger] links[a].1 == src && targets_of(
            links.take(a + 1),
            k,
        ).contains(src);
        assert(store.links@[a].1 == store.links@[i].0);
        assert(a < i);
        lemma_targets_prefix(links, k, a + 1, i, src);
    }
    let p = links.take(i + 1);
    assert(p.drop_last() =~= links.take(i));
    assert(p.last() == links[i]);
    let r = targets_of(links.take(i), k);
    assert(targets_of(p, k) == r.push(links[i].1));
    assert(targets_of(p, k)[r.len() as int] == links[i].1);
    lemma_targets_prefix(links, k, i + 1, links.len() as int, links[i].1);
}

/// A write through one handle is seen through every handle of the same
/// cell, and leaves every other cell, and all listeners, as they were.
pub proof fn law_shared_write<T>(cells: Seq<(T, Seq<u64>)>, k: int, v: T, j: int)
    requires
        0 <= k < cells.len(),
        0 <= j < cells.len(),
    ensures
        written(cells, k, v)[j].0 == (if j == k {
            v
        } else {
            cells[j].0
        }),
        written(cells, k, v)[j].1 == cells[j].1,
        written(cells, k, v).len() == cells.len(),
{
}

} // verus!
