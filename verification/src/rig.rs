//! The camera rig: an ordered chain of drivers folded once per frame,
//! threading each driver's output transform into the next as its parent,
//! with the final transform cached for the renderer.

use vstd::prelude::*;

verus! {

use crate::handedness::Handedness;
use crate::handedness::RightHanded;
use crate::transform::Transform;
use crate::driver::Driver;
use crate::driver::DriverKind;
use crate::driver::RigDriver;
use crate::driver::RigDriverTraits;
use crate::driver::RigUpdateParams;

/// Every stored driver satisfies its own state invariant.
pub open spec fn drivers_wf(ds: Seq<Driver>) -> bool {
    forall|i: int| 0 <= i < ds.len() ==> #[trigger] ds[i].wf()
}

/// The whole per-frame algorithm: fold the driver chain left to right,
/// starting from `parent`, handing each driver's output to the next as its
/// parent; yields the updated drivers and the final transform.
pub open spec fn spec_run<H: Handedness>(ds: Seq<Driver>, parent: Transform<H>, dt: int) -> (
    Seq<Driver>,
    Transform<H>,
)
    decreases ds.len(),
{
    if ds.len() == 0 {
        (ds, parent)
    } else {
        let (d2, t) = ds[0].spec_update(parent, dt);
        let (rest, fin) = spec_run(ds.skip(1), t, dt);
        (seq![d2] + rest, fin)
    }
}

/// The index of the first driver of the requested kind, or -1.
pub open spec fn find_kind(ds: Seq<Driver>, kind: DriverKind) -> int
    decreases ds.len(),
{
    if ds.len() == 0 {
        -1
    } else if ds[0].kind_of() == kind {
        0
    } else {
        let r = find_kind(ds.skip(1), kind);
        if r == -1 {
            -1
        } else {
            r + 1
        }
    }
}

/// A scan that saw no match up to `i`, and a match at `i`, pins the first
/// match down.
pub proof fn lemma_find_kind_at(ds: Seq<Driver>, kind: DriverKind, i: int)
    requires
        0 <= i < ds.len(),
        forall|j: int| 0 <= j < i ==> #[trigger] ds[j].kind_of() != kind,
        ds[i].kind_of() == kind,
    ensures
        find_kind(ds, kind) == i,
    decreases i,
{
    if i > 0 {
        lemma_find_kind_at(ds.skip(1), kind, i - 1);
    }
}

/// A scan that saw no match at all means there is none.
pub proof fn lemma_find_kind_none(ds: Seq<Driver>, kind: DriverKind)
    requires
        forall|j: int| 0 <= j < ds.len() ==> #[trigger] ds[j].kind_of() != kind,
    ensures
        find_kind(ds, kind) == -1,
    decreases ds.len(),
{
    if ds.len() > 0 {
        lemma_find_kind_none(ds.skip(1), kind);
    }
}

/// Running the chain twice with a zero time delta is the same as running
/// it once: the first zero-delta run may initialize smoothing state, but
/// the second reproduces the same driver states and final transform.
pub proof fn lemma_rerun_zero_dt<H: Handedness>(ds: Seq<Driver>, parent: Transform<H>)
    ensures
        ({
            let (ds1, t1) = spec_run(ds, parent, 0);
            spec_run(ds1, parent, 0) == (ds1, t1)
        }),
    decreases ds.len(),
{
    if ds.len() > 0 {
        let (d2, t) = ds[0].spec_update(parent, 0);
        crate::driver::lemma_driver_step_zero_dt(ds[0], parent);
        let (rest1, fin1) = spec_run(ds.skip(1), t, 0);
        lemma_rerun_zero_dt(ds.skip(1), t);
        assert((seq![d2] + rest1)[0] == d2);
        assert((seq![d2] + rest1).skip(1) =~= rest1);
    }
}

/// The ordered driver chain plus the last computed final transform.
pub struct CameraRig<H: Handedness = RightHanded> {
    pub drivers: Vec<Driver>,
    pub final_transform: Transform<H>,
}

impl<H: Handedness> CameraRig<H> {
    pub open spec fn wf(self) -> bool {
        &&& drivers_wf(self.drivers@)
        &&& self.final_transform.wf()
    }

    /// The index of the first driver of the requested kind, if any; the
    /// rig itself is left untouched.
    pub fn try_driver_index(&self, kind: DriverKind) -> (r: Option<usize>)
        ensures
            match r {
                Option::Some(i) => i < self.drivers.len() && find_kind(self.drivers@, kind)
                    == i as int,
                Option::None => find_kind(self.drivers@, kind) == -1,
            },
    {
        let n = self.drivers.len();
        let mut i: usize = 0;
        while i < n
            invariant
                i <= n,
                n == self.drivers.len(),
                forall|j: int| 0 <= j < i ==> #[trigger] self.drivers@[j].kind_of() != kind,
            decreases n - i,
        {
            if <Driver as RigDriverTraits<H>>::kind(&self.drivers[i]) == kind {
                proof {
                    lemma_find_kind_at(self.drivers@, kind, i as int);
                }
                return Option::Some(i);
            }
            i = i + 1;
        }
        proof {
            lemma_find_kind_none(self.drivers@, kind);
        }
        Option::None
    }

    /// A mutable borrow of the first driver of the requested kind; absence
    /// is reported, not fatal.
    pub fn try_driver_mut(&mut self, kind: DriverKind) -> (r: Option<&mut Driver>)
        ensures
            match r {
                Option::Some(d) => {
                    &&& 0 <= find_kind(old(self).drivers@, kind) < old(self).drivers@.len()
                    &&& *d == old(self).drivers@[find_kind(old(self).drivers@, kind)]
                    &&& final(self).drivers@ == old(self).drivers@.update(
                        find_kind(old(self).drivers@, kind),
                        *final(d),
                    )
                    &&& final(self).final_transform == old(self).final_transform
                },
                Option::None => {
                    &&& find_kind(old(self).drivers@, kind) == -1
                    &&& *final(self) == *old(self)
                },
            },
    {
        match self.try_driver_index(kind) {
            Option::Some(i) => Option::Some(&mut self.drivers[i]),
            Option::None => Option::None,
        }
    }

    /// A mutable borrow of the first driver of the requested kind; asking
    /// for a kind the rig was not built with is a configuration error,
    /// ruled out by the precondition.
    pub fn driver_mut(&mut self, kind: DriverKind) -> (d: &mut Driver)
        requires
            find_kind(old(self).drivers@, kind) >= 0,
        ensures
            0 <= find_kind(old(self).drivers@, kind) < old(self).drivers@.len(),
            *d == old(self).drivers@[find_kind(old(self).drivers@, kind)],
            final(self).drivers@ == old(self).drivers@.update(
                find_kind(old(self).drivers@, kind),
                *final(d),
            ),
            final(self).final_transform == old(self).final_transform,
    {
        match self.try_driver_mut(kind) {
            Option::Some(d) => d,
            Option::None => vstd::pervasive::unreached(),
        }
    }

    /// Run one frame: fold the driver chain in insertion order from the
    /// identity transform, cache the result and return it.
    #[verifier::rlimit(100)]
    pub fn update(&mut self, delta_time_seconds: i64) -> (t: Transform<H>)
        requires
            old(self).wf(),
            delta_time_seconds >= 0,
        ensures
            final(self).wf(),
            final(self).drivers@ == spec_run(
                old(self).drivers@,
                Transform::<H>::spec_identity(),
                delta_time_seconds as int,
            ).0,
            final(self).final_transform == spec_run(
                old(self).drivers@,
                Transform::<H>::spec_identity(),
                delta_time_seconds as int,
            ).1,
            t == final(self).final_transform,
    {
        let ghost ds0 = self.drivers@;
        let ghost dt = delta_time_seconds as int;
        let mut parent: Transform<H> = Transform::IDENTITY();
        let n = self.drivers.len();
        let mut i: usize = 0;
        proof {
            assert(ds0.skip(0) =~= ds0);
            assert(self.drivers@.take(0) =~= Seq::<Driver>::empty());
            assert(Seq::<Driver>::empty() + spec_run(ds0, parent, dt).0 =~= spec_run(
                ds0,
                parent,
                dt,
            ).0);
        }
        while i < n
            invariant
                i <= n,
                n == self.drivers.len(),
                n == ds0.len(),
                delta_time_seconds >= 0,
                dt == delta_time_seconds as int,
                drivers_wf(self.drivers@),
                parent.wf(),
                forall|j: int| i <= j < n ==> self.drivers@[j] == ds0[j],
                spec_run(ds0, Transform::<H>::spec_identity(), dt).0 == self.drivers@.take(i as int)
                    + spec_run(ds0.skip(i as int), parent, dt).0,
                spec_run(ds0, Transform::<H>::spec_identity(), dt).1 == spec_run(
                    ds0.skip(i as int),
                    parent,
                    dt,
                ).1,
            decreases n - i,
        {
            let ghost pre = self.drivers@;
            let ghost parent0 = parent;
            let mut d = self.drivers[i];
            let t = d.update(RigUpdateParams { parent, delta_time_seconds });
            self.drivers[i] = d;
            parent = t;
            proof {
                assert(ds0.skip(i as int)[0] == ds0[i as int]);
                assert(ds0.skip(i as int).skip(1) =~= ds0.skip(i as int + 1));
                assert(self.drivers@.take(i as int + 1) =~= pre.take(i as int) + seq![d]);
                assert(spec_run(ds0.skip(i as int), parent0, dt).0 == seq![d] + spec_run(
                    ds0.skip(i as int + 1),
                    parent,
                    dt,
                ).0);
                assert(self.drivers@.take(i as int + 1) + spec_run(ds0.skip(i as int + 1), parent, dt).0
                    =~= pre.take(i as int) + spec_run(ds0.skip(i as int), parent0, dt).0);
            }
            i = i + 1;
        }
        proof {
            assert(self.drivers@.take(n as int) =~= self.drivers@);
            assert(ds0.skip(n as int) =~= Seq::<Driver>::empty());
            assert(spec_run(ds0.skip(n as int), parent, dt).0 =~= Seq::<Driver>::empty());
            assert(self.drivers@ + Seq::<Driver>::empty() =~= self.drivers@);
        }
        self.final_transform = parent;
        parent
    }

    /// Use this to make a new rig.
    pub fn builder() -> (r: CameraRigBuilder<H>)
        ensures
            r.drivers@ == Seq::<Driver>::empty(),
    {
        CameraRigBuilder { drivers: Vec::new(), phantom: core::marker::PhantomData }
    }
}

/// Accumulates a driver chain in order, then builds the rig with one
/// initial zero-delta update so its final transform is valid at once.
pub struct CameraRigBuilder<H: Handedness> {
    pub drivers: Vec<Driver>,
    pub phantom: core::marker::PhantomData<H>,
}

impl<H: Handedness> CameraRigBuilder<H> {
    /// Append a driver to the chain (order is part of the semantics).
    pub fn with(self, driver: Driver) -> (r: CameraRigBuilder<H>)
        requires
            driver.wf(),
        ensures
            r.drivers@ == self.drivers@.push(driver),
    {
        let mut s = self;
        s.drivers.push(driver);
        s
    }

    /// Build the rig: one update with a zero time delta runs, so the rig
    /// is immediately consumable with a valid final transform.
    pub fn build(self) -> (rig: CameraRig<H>)
        requires
            drivers_wf(self.drivers@),
        ensures
            rig.wf(),
            rig.drivers@ == spec_run(self.drivers@, Transform::<H>::spec_identity(), 0).0,
            rig.final_transform == spec_run(self.drivers@, Transform::<H>::spec_identity(), 0).1,
    {
        let mut rig = CameraRig { drivers: self.drivers, final_transform: Transform::IDENTITY() };
        rig.update(0);
        rig
    }
}

} // verus!
