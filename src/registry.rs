use vstd::prelude::*;

use crate::geometry::Rect;

verus! {

/// A mapped toplevel: its surface and its geometry when it was mapped.
#[derive(Clone, Copy, Debug, PartialEq, Eq, Structural)]
pub struct Window {
    pub surface: u64,
    pub geometry: Rect,
}

/// The stacking layer of a layer surface.
#[derive(Clone, Copy, Debug, PartialEq, Eq, Structural)]
pub enum Layer {
    Background,
    Bottom,
    Top,
    Overlay,
}

/// A layer surface known to the shell.
#[derive(Clone, Debug, PartialEq, Eq)]
pub struct LayerEntry {
    pub surface: u64,
    pub output: Option<u64>,
    pub layer: Layer,
    pub namespace: String,
    pub initial_configure_sent: bool,
}

/// A popup known to the shell.
#[derive(Clone, Copy, Debug, PartialEq, Eq, Structural)]
pub struct PopupEntry {
    pub surface: u64,
    pub parent: u64,
    pub geometry: Rect,
    pub initial_configure_sent: bool,
}

/// Whether `id` occurs in `ids`; used to test a surface against the list of
/// destroyed surfaces.
pub fn contains_id(ids: &Vec<u64>, id: u64) -> (r: bool)
    ensures
        r == ids@.contains(id),
{
    let mut i: usize = 0;
    while i < ids.len()
        invariant
            0 <= i <= ids@.len(),
            forall|k: int| 0 <= k < i ==> ids@[k] != id,
        decreases ids@.len() - i,
    {
        if ids[i] == id {
            return true;
        }
        i = i + 1;
    }
    false
}

// ---------------------------------------------------------------------------
// Pending surfaces
// ---------------------------------------------------------------------------

/// Surfaces that have the toplevel role but no buffer yet.
pub struct PendingRegistry {
    surfaces: Vec<u64>,
}

/// The outcome of promoting `s` out of `pending` when its committed geometry
/// is `geometry` (`None`: no buffer, or no resolvable geometry yet).
pub open spec fn promote(pending: Seq<u64>, s: u64, geometry: Option<Rect>) -> (
    Seq<u64>,
    Option<Window>,
) {
    if pending.contains(s) && geometry is Some {
        (pending.remove(pending.index_of(s)), Some(Window { surface: s, geometry: geometry->0 }))
    } else {
        (pending, None)
    }
}

/// The entries that `refresh` keeps: those not listed in `dead`.
pub open spec fn survives(dead: Seq<u64>) -> spec_fn(u64) -> bool {
    |s: u64| !dead.contains(s)
}

impl View for PendingRegistry {
    type V = Seq<u64>;

    closed spec fn view(&self) -> Seq<u64> {
        self.surfaces@
    }
}

impl PendingRegistry {
    pub open spec fn wf(&self) -> bool {
        self@.no_duplicates()
    }

    pub fn new() -> (r: PendingRegistry)
        ensures
            r@ == Seq::<u64>::empty(),
            r.wf(),
    {
        PendingRegistry { surfaces: Vec::new() }
    }

    pub fn contains(&self, s: u64) -> (r: bool)
        ensures
            r == self@.contains(s),
    {
        contains_id(&self.surfaces, s)
    }

    /// Adds a surface that is not pending yet.
    pub fn insert(&mut self, s: u64)
        requires
            old(self).wf(),
            !old(self)@.contains(s),
        ensures
            final(self)@ == old(self)@.push(s),
            final(self).wf(),
    {
        self.surfaces.push(s);
    }

    /// Maps `s` if it is pending and `geometry` is known: it leaves the
    /// registry and comes back as a new window. Otherwise nothing changes.
    pub fn try_promote(&mut self, s: u64, geometry: Option<Rect>) -> (r: Option<Window>)
        requires
            old(self).wf(),
        ensures
            (final(self)@, r) == promote(old(self)@, s, geometry),
            final(self).wf(),
            !final(self)@.contains(s) || r is None,
    {
        match geometry {
            None => None,
            Some(g) => {
                let mut i: usize = 0;
                while i < self.surfaces.len()
                    invariant
                        0 <= i <= self.surfaces@.len(),
                        self.surfaces@ == old(self)@,
                        old(self)@.no_duplicates(),
                        geometry == Some(g),
                        forall|k: int| 0 <= k < i ==> self.surfaces@[k] != s,
                    decreases self.surfaces@.len() - i,
                {
                    if self.surfaces[i] == s {
                        let ghost before = self.surfaces@;
                        proof {
                            let k = before.index_of(s);
                            assert(before[i as int] == s);
                            assert(0 <= k < before.len() && before[k] == s);
                            assert(k == i as int);
                            assert(before.contains(s));
                        }
                        self.surfaces.remove(i);
                        proof {
                            before.remove_ensures(i as int);
                            assert(!self.surfaces@.contains(s)) by {
                                if self.surfaces@.contains(s) {
                                    let k = choose|k: int|
                                        0 <= k < self.surfaces@.len() && self.surfaces@[k] == s;
                                    if k < i {
                                        assert(before[k] == s);
                                    } else {
                                        assert(before[k + 1] == s);
                                    }
                                }
                            }
                            assert forall|a: int, b: int|
                                0 <= a < self.surfaces@.len() && 0 <= b < self.surfaces@.len()
                                    && a != b implies self.surfaces@[a] != self.surfaces@[b] by {
                                let a2 = if a < i { a } else { a + 1 };
                                let b2 = if b < i { b } else { b + 1 };
                                assert(self.surfaces@[a] == before[a2]);
                                assert(self.surfaces@[b] == before[b2]);
                            }
                            assert(self.surfaces@ == before.remove(before.index_of(s)));
                        }
                        return Some(Window { surface: s, geometry: g });
                    }
                    i = i + 1;
                }
                None
            },
        }
    }

    /// Drops every pending surface listed in `dead`, keeping the order of the rest.
    pub fn refresh(&mut self, dead: &Vec<u64>)
        requires
            old(self).wf(),
        ensures
            final(self)@ == old(self)@.filter(survives(dead@)),
            final(self).wf(),
    {
        let ghost orig = self.surfaces@;
        let mut i: usize = 0;
        let mut j: usize = 0;
        let n: usize = self.surfaces.len();
        while j < n
            invariant
                n == orig.len(),
                0 <= j <= orig.len(),
                i == orig.take(j as int).filter(survives(dead@)).len(),
                self.surfaces@ == orig.take(j as int).filter(survives(dead@)) + orig.skip(j as int),
                orig.no_duplicates(),
                self.surfaces@.no_duplicates(),
            decreases orig.len() - j,
        {
            proof {
                reveal(Seq::filter);
                assert(orig.take(j as int + 1).drop_last() =~= orig.take(j as int));
                assert(orig.take(j as int + 1).last() == orig[j as int]);
                assert(self.surfaces@[i as int] == orig[j as int]);
            }
            let gone = contains_id(dead, self.surfaces[i]);
            proof {
                assert(gone == dead@.contains(orig[j as int]));
                assert(survives(dead@)(orig[j as int]) == !dead@.contains(orig[j as int]));
            }
            if gone {
                let ghost before = self.surfaces@;
                self.surfaces.remove(i);
                proof {
                    before.remove_ensures(i as int);
                    assert(!survives(dead@)(orig[j as int]));
                    assert(orig.take(j as int + 1).filter(survives(dead@)) == orig.take(j as int).filter(survives(dead@)));
                    assert(orig.skip(j as int) =~= seq![orig[j as int]] + orig.skip(j as int + 1));
                    assert(self.surfaces@ =~= orig.take(j as int + 1).filter(survives(dead@)) + orig.skip(
                        j as int + 1,
                    ));
                    assert forall|a: int, b: int|
                        0 <= a < self.surfaces@.len() && 0 <= b < self.surfaces@.len() && a
                            != b implies self.surfaces@[a] != self.surfaces@[b] by {
                        let a2 = if a < i { a } else { a + 1 };
                        let b2 = if b < i { b } else { b + 1 };
                        assert(self.surfaces@[a] == before[a2]);
                        assert(self.surfaces@[b] == before[b2]);
                    }
                }
            } else {
                i = i + 1;
                proof {
                    assert(survives(dead@)(orig[j as int]));
                    assert(orig.take(j as int + 1).filter(survives(dead@)) == orig.take(j as int).filter(
                        survives(dead@),
                    ).push(orig[j as int]));
                    assert(self.surfaces@ =~= orig.take(j as int + 1).filter(survives(dead@)) + orig.skip(
                        j as int + 1,
                    ));
                }
            }
            j = j + 1;
        }
        proof {
            assert(orig.take(orig.len() as int) =~= orig);
            assert(orig.skip(orig.len() as int) =~= Seq::<u64>::empty());
            assert(self.surfaces@ =~= orig.filter(survives(dead@)));
        }
    }
}

/// Promotion succeeds at most once: once a surface has been promoted, a
/// further promotion of it returns nothing, whatever geometry it comes with.
pub proof fn lemma_promotion_at_most_once(
    pending: Seq<u64>,
    s: u64,
    geometry: Option<Rect>,
    later: Option<Rect>,
)
    requires
        pending.no_duplicates(),
    ensures
        promote(pending, s, geometry).1 is Some ==> promote(promote(pending, s, geometry).0, s, later).1
            is None,
{
    if promote(pending, s, geometry).1 is Some {
        let i = pending.index_of(s);
        let rest = promote(pending, s, geometry).0;
        assert(0 <= i < pending.len() && pending[i] == s);
        pending.remove_ensures(i);
        if rest.contains(s) {
            let k = choose|k: int| 0 <= k < rest.len() && rest[k] == s;
            if k < i {
                assert(pending[k] == s);
            } else {
                assert(pending[k + 1] == s);
            }
        }
    }
}

// ---------------------------------------------------------------------------
// Mapped entries
// ---------------------------------------------------------------------------

/// An entry that belongs to one surface.
pub trait Surfaced: Sized {
    spec fn surface_id(&self) -> u64;

    fn surface(&self) -> (r: u64)
        ensures
            r == self.surface_id(),
    ;
}

/// An entry with a one-shot "initial configure sent" flag.
pub trait Configurable: Surfaced {
    spec fn configured(&self) -> bool;

    /// The same entry with the flag set.
    spec fn marked(self) -> Self;

    proof fn lemma_marked(self)
        ensures
            self.marked().surface_id() == self.surface_id(),
            self.marked().configured(),
    ;

    fn is_configured(&self) -> (r: bool)
        ensures
            r == self.configured(),
    ;

    fn mark_configured(&mut self)
        ensures
            *final(self) == old(self).marked(),
            final(self).configured(),
            final(self).surface_id() == old(self).surface_id(),
    ;
}

impl Surfaced for Window {
    open spec fn surface_id(&self) -> u64 {
        self.surface
    }

    fn surface(&self) -> (r: u64) {
        self.surface
    }
}

impl Surfaced for LayerEntry {
    open spec fn surface_id(&self) -> u64 {
        self.surface
    }

    fn surface(&self) -> (r: u64) {
        self.surface
    }
}

impl Surfaced for PopupEntry {
    open spec fn surface_id(&self) -> u64 {
        self.surface
    }

    fn surface(&self) -> (r: u64) {
        self.surface
    }
}

impl Configurable for LayerEntry {
    open spec fn configured(&self) -> bool {
        self.initial_configure_sent
    }

    open spec fn marked(self) -> Self {
        LayerEntry { initial_configure_sent: true, ..self }
    }

    proof fn lemma_marked(self) {
    }

    fn is_configured(&self) -> (r: bool) {
        self.initial_configure_sent
    }

    fn mark_configured(&mut self) {
        self.initial_configure_sent = true;
    }
}

impl Configurable for PopupEntry {
    open spec fn configured(&self) -> bool {
        self.initial_configure_sent
    }

    open spec fn marked(self) -> Self {
        PopupEntry { initial_configure_sent: true, ..self }
    }

    proof fn lemma_marked(self) {
    }

    fn is_configured(&self) -> (r: bool) {
        self.initial_configure_sent
    }

    fn mark_configured(&mut self) {
        self.initial_configure_sent = true;
    }
}

/// Whether some entry of `v` belongs to surface `s`.
pub open spec fn has_surface<T: Surfaced>(v: Seq<T>, s: u64) -> bool {
    exists|i: int| 0 <= i < v.len() && #[trigger] v[i].surface_id() == s
}

/// No two entries of `v` belong to the same surface.
pub open spec fn unique_surfaces<T: Surfaced>(v: Seq<T>) -> bool {
    forall|a: int, b: int|
        0 <= a < v.len() && 0 <= b < v.len() && a != b ==> #[trigger] v[a].surface_id()
            != #[trigger] v[b].surface_id()
}

/// The entries that `refresh` keeps: those whose surface is not listed in `dead`.
pub open spec fn entry_survives<T: Surfaced>(dead: Seq<u64>) -> spec_fn(T) -> bool {
    |e: T| !dead.contains(e.surface_id())
}

/// The index of the entry of surface `s`, if there is one.
pub open spec fn index_of_surface<T: Surfaced>(v: Seq<T>, s: u64) -> int {
    choose|i: int| 0 <= i < v.len() && v[i].surface_id() == s
}

/// One commit's initial-configure step for surface `s`: if its entry has not
/// had its configure yet, the configure is sent and the flag set.
pub open spec fn configure_step<T: Configurable>(v: Seq<T>, s: u64) -> (Seq<T>, bool) {
    if has_surface(v, s) && !v[index_of_surface(v, s)].configured() {
        let i = index_of_surface(v, s);
        (v.update(i, v[i].marked()), true)
    } else {
        (v, false)
    }
}

/// How many configures `n` consecutive commits of surface `s` send.
pub open spec fn configures_sent<T: Configurable>(v: Seq<T>, s: u64, n: nat) -> nat
    decreases n,
{
    if n == 0 {
        0
    } else {
        let (next, sent) = configure_step(v, s);
        (if sent { 1nat } else { 0nat }) + configures_sent(next, s, (n - 1) as nat)
    }
}

/// An ordered list of mapped entries, at most one per surface.
pub struct Registry<T> {
    entries: Vec<T>,
}

impl<T> View for Registry<T> {
    type V = Seq<T>;

    closed spec fn view(&self) -> Seq<T> {
        self.entries@
    }
}

proof fn lemma_index_of_surface<T: Surfaced>(v: Seq<T>, s: u64, i: int)
    requires
        unique_surfaces(v),
        0 <= i < v.len(),
        v[i].surface_id() == s,
    ensures
        index_of_surface(v, s) == i,
        has_surface(v, s),
{
    let k = index_of_surface(v, s);
    assert(0 <= k < v.len() && v[k].surface_id() == s);
}

impl<T: Surfaced> Registry<T> {
    pub open spec fn wf(&self) -> bool {
        unique_surfaces(self@)
    }

    pub open spec fn has(&self, s: u64) -> bool {
        has_surface(self@, s)
    }

    pub fn new() -> (r: Registry<T>)
        ensures
            r@ == Seq::<T>::empty(),
            r.wf(),
    {
        Registry { entries: Vec::new() }
    }

    pub fn len(&self) -> (r: usize)
        ensures
            r == self@.len(),
    {
        self.entries.len()
    }

    pub fn get(&self, i: usize) -> (r: &T)
        requires
            i < self@.len(),
        ensures
            *r == self@[i as int],
    {
        &self.entries[i]
    }

    /// The index of the entry of surface `s`.
    pub fn position(&self, s: u64) -> (r: Option<usize>)
        requires
            self.wf(),
        ensures
            r is None <==> !self.has(s),
            r matches Some(i) ==> i == index_of_surface(self@, s) && i < self@.len()
                && self@[i as int].surface_id() == s,
    {
        let mut i: usize = 0;
        while i < self.entries.len()
            invariant
                0 <= i <= self@.len(),
                unique_surfaces(self@),
                forall|k: int| 0 <= k < i ==> #[trigger] self@[k].surface_id() != s,
            decreases self@.len() - i,
        {
            if self.entries[i].surface() == s {
                proof {
                    lemma_index_of_surface(self@, s, i as int);
                }
                return Some(i);
            }
            i = i + 1;
        }
        None
    }

    /// The entry of surface `s`, if any.
    pub fn find(&self, s: u64) -> (r: Option<&T>)
        requires
            self.wf(),
        ensures
            r is None <==> !self.has(s),
            r matches Some(e) ==> *e == self@[index_of_surface(self@, s)] && e.surface_id() == s,
    {
        match self.position(s) {
            Some(i) => Some(&self.entries[i]),
            None => None,
        }
    }

    /// Replaces entry `i` with one for the same surface.
    pub fn set(&mut self, i: usize, e: T)
        requires
            old(self).wf(),
            i < old(self)@.len(),
            e.surface_id() == old(self)@[i as int].surface_id(),
        ensures
            final(self)@ == old(self)@.update(i as int, e),
            final(self).wf(),
    {
        self.entries.set(i, e);
        proof {
            assert forall|a: int, b: int|
                0 <= a < self@.len() && 0 <= b < self@.len() && a != b implies #[trigger] self@[a].surface_id()
                    != #[trigger] self@[b].surface_id() by {
                assert(old(self)@[a].surface_id() != old(self)@[b].surface_id());
            }
        }
    }

    /// Appends an entry for a surface that has none yet.
    pub fn push(&mut self, e: T)
        requires
            old(self).wf(),
            !old(self).has(e.surface_id()),
        ensures
            final(self)@ == old(self)@.push(e),
            final(self).wf(),
    {
        self.entries.push(e);
        proof {
            assert forall|a: int, b: int|
                0 <= a < self@.len() && 0 <= b < self@.len() && a != b implies #[trigger] self@[a].surface_id()
                    != #[trigger] self@[b].surface_id() by {
                if a == self@.len() - 1 {
                    assert(self@[b] == old(self)@[b]);
                } else if b == self@.len() - 1 {
                    assert(self@[a] == old(self)@[a]);
                } else {
                    assert(self@[a] == old(self)@[a]);
                    assert(self@[b] == old(self)@[b]);
                }
            }
        }
    }

    /// Drops every entry whose surface is listed in `dead`, keeping the order
    /// of the rest.
    pub fn refresh(&mut self, dead: &Vec<u64>)
        requires
            old(self).wf(),
        ensures
            final(self)@ == old(self)@.filter(entry_survives::<T>(dead@)),
            final(self).wf(),
    {
        let ghost orig = self.entries@;
        let mut i: usize = 0;
        let mut j: usize = 0;
        let n: usize = self.entries.len();
        while j < n
            invariant
                n == orig.len(),
                0 <= j <= orig.len(),
                i == orig.take(j as int).filter(entry_survives::<T>(dead@)).len(),
                self.entries@ == orig.take(j as int).filter(entry_survives::<T>(dead@))
                    + orig.skip(j as int),
                unique_surfaces(self.entries@),
            decreases orig.len() - j,
        {
            proof {
                reveal(Seq::filter);
                assert(orig.take(j as int + 1).drop_last() =~= orig.take(j as int));
                assert(orig.take(j as int + 1).last() == orig[j as int]);
                assert(self.entries@[i as int] == orig[j as int]);
                assert(orig.skip(j as int) =~= seq![orig[j as int]] + orig.skip(j as int + 1));
            }
            let id = self.entries[i].surface();
            let gone = contains_id(dead, id);
            if gone {
                let ghost before = self.entries@;
                self.entries.remove(i);
                proof {
                    before.remove_ensures(i as int);
                    assert(!entry_survives::<T>(dead@)(orig[j as int]));
                    assert(orig.take(j as int + 1).filter(entry_survives::<T>(dead@))
                        == orig.take(j as int).filter(entry_survives::<T>(dead@)));
                    assert(self.entries@ =~= orig.take(j as int + 1).filter(
                        entry_survives::<T>(dead@),
                    ) + orig.skip(j as int + 1));
                    assert forall|a: int, b: int|
                        0 <= a < self.entries@.len() && 0 <= b < self.entries@.len() && a
                            != b implies #[trigger] self.entries@[a].surface_id()
                            != #[trigger] self.entries@[b].surface_id() by {
                        let a2 = if a < i { a } else { a + 1 };
                        let b2 = if b < i { b } else { b + 1 };
                        assert(self.entries@[a] == before[a2]);
                        assert(self.entries@[b] == before[b2]);
                    }
                }
            } else {
                i = i + 1;
                proof {
                    assert(entry_survives::<T>(dead@)(orig[j as int]));
                    assert(orig.take(j as int + 1).filter(entry_survives::<T>(dead@))
                        == orig.take(j as int).filter(entry_survives::<T>(dead@)).push(
                        orig[j as int],
                    ));
                    assert(self.entries@ =~= orig.take(j as int + 1).filter(
                        entry_survives::<T>(dead@),
                    ) + orig.skip(j as int + 1));
                }
            }
            j = j + 1;
        }
        proof {
            assert(orig.take(orig.len() as int) =~= orig);
            assert(orig.skip(orig.len() as int) =~= Seq::<T>::empty());
            assert(self.entries@ =~= orig.filter(entry_survives::<T>(dead@)));
        }
    }
}

impl<T: Configurable> Registry<T> {
    /// The initial-configure step of a commit of surface `s`: returns whether
    /// the configure must be sent now, and records that it was.
    pub fn configure_once(&mut self, s: u64) -> (r: bool)
        requires
            old(self).wf(),
        ensures
            (final(self)@, r) == configure_step(old(self)@, s),
            final(self).wf(),
    {
        match self.position(s) {
            None => false,
            Some(i) => {
                if self.entries[i].is_configured() {
                    false
                } else {
                    let ghost before = self.entries@;
                    let mut e = self.entries.remove(i);
                    e.mark_configured();
                    self.entries.insert(i, e);
                    proof {
                        assert(self.entries@ =~= before.update(i as int, before[i as int].marked()));
                        assert forall|a: int, b: int|
                            0 <= a < self.entries@.len() && 0 <= b < self.entries@.len() && a
                                != b implies #[trigger] self.entries@[a].surface_id()
                                != #[trigger] self.entries@[b].surface_id() by {
                            assert(before[a].surface_id() != before[b].surface_id());
                        }
                    }
                    true
                }
            },
        }
    }
}

/// Filtering keeps no surface that was not there before.
pub proof fn lemma_filter_has_surface<T: Surfaced>(v: Seq<T>, p: spec_fn(T) -> bool, s: u64)
    ensures
        has_surface(v.filter(p), s) ==> has_surface(v, s),
    decreases v.len(),
{
    reveal(Seq::filter);
    if v.len() > 0 {
        lemma_filter_has_surface(v.drop_last(), p, s);
        let sub = v.drop_last().filter(p);
        if has_surface(v.filter(p), s) {
            let i = choose|i: int| 0 <= i < v.filter(p).len() && v.filter(p)[i].surface_id() == s;
            if i < sub.len() {
                assert(sub[i] == v.filter(p)[i]);
                let k = choose|k: int| 0 <= k < v.drop_last().len() && v.drop_last()[k].surface_id() == s;
                assert(v[k] == v.drop_last()[k]);
            } else {
                assert(v.filter(p)[i] == v.last());
                assert(v[v.len() - 1].surface_id() == s);
            }
        }
    }
}

/// Filtering keeps no element that was not there before.
pub proof fn lemma_filter_contains(v: Seq<u64>, p: spec_fn(u64) -> bool, s: u64)
    ensures
        v.filter(p).contains(s) ==> v.contains(s),
    decreases v.len(),
{
    reveal(Seq::filter);
    if v.len() > 0 {
        lemma_filter_contains(v.drop_last(), p, s);
        let sub = v.drop_last().filter(p);
        if v.filter(p).contains(s) {
            let i = choose|i: int| 0 <= i < v.filter(p).len() && v.filter(p)[i] == s;
            if i < sub.len() {
                assert(sub[i] == v.filter(p)[i]);
                assert(sub.contains(s));
                let k = choose|k: int| 0 <= k < v.drop_last().len() && v.drop_last()[k] == s;
                assert(v[k] == v.drop_last()[k]);
            } else {
                assert(v.filter(p)[i] == v.last());
                assert(v[v.len() - 1] == s);
            }
        }
    }
}

/// The configure step changes no entry's surface.
pub proof fn lemma_configure_step_keeps_surfaces<T: Configurable>(v: Seq<T>, s: u64)
    requires
        unique_surfaces(v),
    ensures
        forall|t: u64| has_surface(configure_step(v, s).0, t) == has_surface(v, t),
        unique_surfaces(configure_step(v, s).0),
{
    let next = configure_step(v, s).0;
    if configure_step(v, s).1 {
        let i = index_of_surface(v, s);
        assert(0 <= i < v.len() && v[i].surface_id() == s);
        v[i].lemma_marked();
        assert forall|k: int| 0 <= k < v.len() implies #[trigger] next[k].surface_id()
            == v[k].surface_id() by {
        }
        assert forall|t: u64| has_surface(next, t) == has_surface(v, t) by {
            if has_surface(v, t) {
                let k = choose|k: int| 0 <= k < v.len() && v[k].surface_id() == t;
                assert(next[k].surface_id() == t);
            }
            if has_surface(next, t) {
                let k = choose|k: int| 0 <= k < next.len() && next[k].surface_id() == t;
                assert(v[k].surface_id() == t);
            }
        }
        assert forall|a: int, b: int|
            0 <= a < next.len() && 0 <= b < next.len() && a != b implies #[trigger] next[a].surface_id()
                != #[trigger] next[b].surface_id() by {
            assert(v[a].surface_id() != v[b].surface_id());
        }
    }
}

/// However many commits of a surface follow, its initial configure is sent at
/// most once; once sent, it is never sent again.
pub proof fn lemma_initial_configure_at_most_once<T: Configurable>(v: Seq<T>, s: u64, n: nat)
    requires
        unique_surfaces(v),
    ensures
        configures_sent(v, s, n) <= 1,
        configure_step(v, s).1 ==> configures_sent(configure_step(v, s).0, s, n) == 0,
{
    let (next, sent) = configure_step(v, s);
    if sent {
        lemma_marked_is_configured(v, s);
        lemma_configured_stays_quiet(next, s, n);
        if n > 0 {
            lemma_configured_stays_quiet(next, s, (n - 1) as nat);
        }
    } else {
        lemma_configured_stays_quiet(v, s, n);
    }
}

/// A surface whose configure went out (or that has no entry) gets no more.
proof fn lemma_configured_stays_quiet<T: Configurable>(v: Seq<T>, s: u64, n: nat)
    requires
        !configure_step(v, s).1,
    ensures
        configures_sent(v, s, n) == 0,
    decreases n,
{
    if n > 0 {
        lemma_configured_stays_quiet(v, s, (n - 1) as nat);
    }
}

pub(crate) proof fn lemma_marked_is_configured<T: Configurable>(v: Seq<T>, s: u64)
    requires
        unique_surfaces(v),
        configure_step(v, s).1,
    ensures
        unique_surfaces(configure_step(v, s).0),
        !configure_step(configure_step(v, s).0, s).1,
{
    let i = index_of_surface(v, s);
    let next = configure_step(v, s).0;
    assert(0 <= i < v.len() && v[i].surface_id() == s);
    v[i].lemma_marked();
    assert(next[i] == v[i].marked());
    assert forall|a: int, b: int|
        0 <= a < next.len() && 0 <= b < next.len() && a != b implies #[trigger] next[a].surface_id()
            != #[trigger] next[b].surface_id() by {
        assert(v[a].surface_id() != v[b].surface_id());
    }
    lemma_index_of_surface(next, s, i);
}

} // verus!
