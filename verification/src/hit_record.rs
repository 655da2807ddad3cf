//! Hits, the geometry contract, and the scene as a list of geometry.

use vstd::prelude::*;
use crate::interval::Interval;
use crate::material::Material;
use crate::ray::Ray;
use crate::scalar::Scalar;
use crate::vec3::{Point3, Vec3};

verus! {

/// Where and how a ray met a surface.
#[derive(Clone, Copy, Debug, PartialEq, Eq, Structural)]
pub struct HitRecord {
    pub p: Point3,
    /// Unit normal at `p`, turned against the ray.
    pub normal_vec: Vec3,
    /// What the surface is made of; a hit without material absorbs the ray.
    pub material: Option<Material>,
    /// Distance along the ray.
    pub t: Scalar,
    /// Whether the ray met the surface from outside.
    pub front_face: bool,
}

impl HitRecord {
    pub fn new(p: Point3, normal_vec: Vec3, t: Scalar, front_face: bool) -> (rec: HitRecord)
        ensures
            rec.p == p,
            rec.normal_vec == normal_vec,
            rec.material is None,
            rec.t == t,
            rec.front_face == front_face,
    {
        HitRecord { p, normal_vec, material: None, t, front_face }
    }

    /// Orients the normal. `direction_dot_normal` is the dot product of the
    /// ray's direction with `outward_normal_vec`: where it is negative the ray
    /// came from outside, the hit is a front face and keeps the outward
    /// normal; otherwise the ray came from inside and the normal is turned
    /// round to face it.
    pub fn set_face_normal_vec(&mut self, direction_dot_normal: Scalar, outward_normal_vec: Vec3)
        ensures
            final(self).front_face == direction_dot_normal.lt_spec(Scalar { bits: 0 }),
            final(self).normal_vec == if final(self).front_face {
                outward_normal_vec
            } else {
                outward_normal_vec.invert_spec()
            },
            final(self).p == old(self).p,
            final(self).t == old(self).t,
            final(self).material == old(self).material,
    {
        self.front_face = direction_dot_normal.lt(Scalar::zero());
        self.normal_vec = if self.front_face {
            outward_normal_vec
        } else {
            outward_normal_vec.invert()
        };
    }
}

/// Geometry that a ray can hit.
pub trait Hittable {
    /// The nearest point at which `r` meets the geometry at a distance
    /// strictly inside `interval`, if there is one.
    fn hit(&self, r: &Ray, interval: Interval) -> (rec: Option<HitRecord>)
        ensures
            rec matches Some(h) ==> interval.surrounds_spec(h.t),
    ;
}

impl<H: Hittable + ?Sized> Hittable for Box<H> {
    fn hit(&self, r: &Ray, interval: Interval) -> (rec: Option<HitRecord>)
        ensures
            call_ensures(H::hit, (&**self, r, interval), rec),
    {
        (**self).hit(r, interval)
    }
}

/// Whether `answer` is what `object` may give when it is asked for the hit
/// of `r` inside `interval`.
pub open spec fn may_answer<H: Hittable>(
    object: H,
    r: Ray,
    interval: Interval,
    answer: Option<HitRecord>,
) -> bool {
    call_ensures(H::hit, (&object, &r, interval), answer)
}

/// Whether `object` answers with its nearest crossing of `r`: asked for a
/// range narrowed from above, it gives the hit that it gives for the whole
/// range where that lies in the narrower one, and no hit where that lies
/// beyond.
pub open spec fn nearest_first<H: Hittable>(object: H, r: Ray) -> bool {
    forall|whole: Interval, limit: Scalar, x: Option<HitRecord>, y: Option<HitRecord>|
        limit.le_spec(whole.max) && #[trigger] may_answer(object, r, whole, x)
            && #[trigger] may_answer(object, r, Interval { min: whole.min, max: limit }, y)
            ==> match y {
            Some(h) => x == Some(h),
            None => x matches Some(g) ==> !g.t.lt_spec(limit),
        }
}

/// The search for the closest hit among the members of a scene, one member
/// at a time.
#[derive(Clone, Copy, Debug, PartialEq, Eq, Structural)]
pub struct HitScan {
    /// The range the search was asked for.
    pub interval: Interval,
    /// Upper bound for the next member: the distance of `found`, or the
    /// range's own upper bound while nothing is found.
    pub closest_so_far: Scalar,
    /// The closest hit so far.
    pub found: Option<HitRecord>,
}

impl HitScan {
    /// The range the next member is asked for.
    pub open spec fn window_spec(self) -> Interval {
        Interval { min: self.interval.min, max: self.closest_so_far }
    }

    /// The search after one more member gave `answer`.
    pub open spec fn offer_spec(self, answer: Option<HitRecord>) -> HitScan {
        match answer {
            Some(h) => HitScan {
                interval: self.interval,
                closest_so_far: h.t,
                found: Some(h),
            },
            None => self,
        }
    }

    /// The search over `interval` after the members gave `answers`, in order.
    pub open spec fn after(interval: Interval, answers: Seq<Option<HitRecord>>) -> HitScan
        decreases answers.len(),
    {
        if answers.len() == 0 {
            HitScan { interval, closest_so_far: interval.max, found: None }
        } else {
            Self::after(interval, answers.drop_last()).offer_spec(answers.last())
        }
    }

    /// Every answer lies strictly inside the range its member was asked for.
    pub open spec fn in_turn(interval: Interval, answers: Seq<Option<HitRecord>>) -> bool {
        forall|i: int|
            0 <= i < answers.len() ==> (#[trigger] answers[i] matches Some(h) ==> Self::after(
                interval,
                answers.take(i),
            ).window_spec().surrounds_spec(h.t))
    }

    /// Each member gave its answer for the range that the search had
    /// narrowed to when its turn came.
    pub open spec fn answered<H: Hittable>(
        objects: Seq<H>,
        r: Ray,
        interval: Interval,
        answers: Seq<Option<HitRecord>>,
    ) -> bool {
        &&& answers.len() == objects.len()
        &&& forall|i: int|
            0 <= i < answers.len() ==> may_answer(
                objects[i],
                r,
                Self::after(interval, answers.take(i)).window_spec(),
                #[trigger] answers[i],
            )
    }

    pub fn begin(interval: Interval) -> (scan: HitScan)
        ensures
            scan == Self::after(interval, Seq::empty()),
    {
        HitScan { interval, closest_so_far: interval.max, found: None }
    }

    pub fn window(&self) -> (w: Interval)
        ensures
            w == self.window_spec(),
    {
        Interval::new(self.interval.min, self.closest_so_far)
    }

    pub fn offer(&mut self, answer: Option<HitRecord>)
        ensures
            *final(self) == old(self).offer_spec(answer),
    {
        match answer {
            Some(h) => {
                self.closest_so_far = h.t;
                self.found = Some(h);
            },
            None => {},
        }
    }
}

/// The closest-hit law. Where each member answered inside the range it was
/// asked for, the search finds a hit exactly when some member did; the hit it
/// finds is one of the answers, lies strictly inside the range asked for, and
/// no answer is closer.
pub proof fn lemma_closest_hit(interval: Interval, answers: Seq<Option<HitRecord>>)
    requires
        HitScan::in_turn(interval, answers),
    ensures
        HitScan::after(interval, answers).interval == interval,
        HitScan::after(interval, answers).found is None ==> HitScan::after(
            interval,
            answers,
        ).closest_so_far == interval.max,
        HitScan::after(interval, answers).found is None <==> forall|i: int|
            0 <= i < answers.len() ==> #[trigger] answers[i] is None,
        HitScan::after(interval, answers).found matches Some(f) ==> {
            &&& HitScan::after(interval, answers).closest_so_far == f.t
            &&& interval.surrounds_spec(f.t)
            &&& exists|i: int| 0 <= i < answers.len() && #[trigger] answers[i] == Some(f)
            &&& forall|i: int|
                0 <= i < answers.len() ==> (#[trigger] answers[i] matches Some(h) ==> f.t.le_spec(
                    h.t,
                ))
        },
    decreases answers.len(),
{
    if answers.len() > 0 {
        let front = answers.drop_last();
        assert forall|i: int| 0 <= i < front.len() implies (#[trigger] front[i] matches Some(h)
            ==> HitScan::after(interval, front.take(i)).window_spec().surrounds_spec(h.t)) by {
            assert(front.take(i) =~= answers.take(i));
            assert(front[i] == answers[i]);
        }
        lemma_closest_hit(interval, front);
        let before = HitScan::after(interval, front);
        let last = answers.len() - 1;
        assert(answers.take(last) =~= front);
        assert(forall|i: int| 0 <= i < front.len() ==> front[i] == answers[i]);
        match answers.last() {
            Some(h) => {
                assert(answers[last] == Some(h));
                assert(before.window_spec().surrounds_spec(h.t));
                assert forall|i: int| 0 <= i < answers.len() implies (#[trigger] answers[i] matches Some(
                    g,
                ) ==> h.t.le_spec(g.t)) by {
                    if i < last {
                        assert(front[i] == answers[i]);
                    }
                }
            },
            None => {
                assert(answers[last] is None);
                if before.found is Some {
                    let f = before.found->Some_0;
                    let k = choose|k: int| 0 <= k < front.len() && #[trigger] front[k] == Some(f);
                    assert(answers[k] == Some(f));
                }
            },
        }
    }
}

/// The closest-hit law, for geometry that answers with its nearest crossing.
/// Let the members of a scene be asked in turn, as the search asks them, and
/// let one of them, asked alone for the whole range, give the hit `alone`.
/// Then the search finds a hit, and one that is no farther.
pub proof fn lemma_globally_closest<H: Hittable>(
    objects: Seq<H>,
    r: Ray,
    interval: Interval,
    answers: Seq<Option<HitRecord>>,
    k: int,
    alone: HitRecord,
)
    requires
        HitScan::answered(objects, r, interval, answers),
        forall|i: int| 0 <= i < objects.len() ==> nearest_first(#[trigger] objects[i], r),
        0 <= k < objects.len(),
        may_answer(objects[k], r, interval, Some(alone)),
    ensures
        HitScan::after(interval, answers).found matches Some(f) && f.t.le_spec(alone.t),
{
    lemma_answered_in_turn(objects, r, interval, answers);
    lemma_closest_hit(interval, answers);
    let front = answers.take(k);
    lemma_answered_prefix(objects, r, interval, answers, k);
    lemma_closest_hit(interval, front);
    let before = HitScan::after(interval, front);
    assert(interval.surrounds_spec(alone.t));
    assert(before.closest_so_far.le_spec(interval.max));
    assert(may_answer(objects[k], r, before.window_spec(), answers[k]));
    match answers[k] {
        Some(h) => {
            assert(Some(alone) == Some(h));
        },
        None => {
            assert(!alone.t.lt_spec(before.closest_so_far));
            let f = before.found->Some_0;
            let j = choose|j: int| 0 <= j < front.len() && #[trigger] front[j] == Some(f);
            assert(answers[j] == Some(f));
        },
    }
}

/// What members answer in turn lies inside the ranges they were asked for.
pub proof fn lemma_answered_in_turn<H: Hittable>(
    objects: Seq<H>,
    r: Ray,
    interval: Interval,
    answers: Seq<Option<HitRecord>>,
)
    requires
        HitScan::answered(objects, r, interval, answers),
    ensures
        HitScan::in_turn(interval, answers),
{
    assert forall|i: int| 0 <= i < answers.len() implies (#[trigger] answers[i] matches Some(h)
        ==> HitScan::after(interval, answers.take(i)).window_spec().surrounds_spec(h.t)) by {
        assert(may_answer(
            objects[i],
            r,
            HitScan::after(interval, answers.take(i)).window_spec(),
            answers[i],
        ));
    }
}

/// A scene: geometry in the order in which it was added. Of boxed geometry
/// it holds any kind side by side.
pub struct HittableList<H: Hittable> {
    pub objects: Vec<H>,
}

impl<H: Hittable> HittableList<H> {
    pub fn new() -> (list: Self)
        ensures
            list.objects@.len() == 0,
    {
        HittableList { objects: Vec::new() }
    }

    pub fn clear(&mut self)
        ensures
            final(self).objects@.len() == 0,
    {
        self.objects.clear();
    }

    pub fn add(&mut self, object: H)
        ensures
            final(self).objects@ == old(self).objects@.push(object),
    {
        self.objects.push(object);
    }
}

impl<H: Hittable> Hittable for HittableList<H> {
    /// Asks every member in order, each for the range below the closest hit
    /// so far, and keeps the last hit: by the closest-hit law, the closest.
    fn hit(&self, r: &Ray, interval: Interval) -> (rec: Option<HitRecord>)
        ensures
            self.objects@.len() == 0 ==> rec is None,
            exists|answers: Seq<Option<HitRecord>>|
                {
                    &&& HitScan::answered(self.objects@, *r, interval, answers)
                    &&& rec == #[trigger] HitScan::after(interval, answers).found
                },
    {
        let mut scan = HitScan::begin(interval);
        let ghost mut answers: Seq<Option<HitRecord>> = Seq::empty();
        let mut i: usize = 0;
        while i < self.objects.len()
            invariant
                i <= self.objects@.len(),
                HitScan::answered(self.objects@.take(i as int), *r, interval, answers),
                scan == HitScan::after(interval, answers),
            decreases self.objects@.len() - i,
        {
            let answer = self.objects[i].hit(r, scan.window());
            proof {
                let longer = answers.push(answer);
                let members = self.objects@.take(i + 1);
                assert(longer.drop_last() =~= answers);
                assert forall|k: int| 0 <= k < longer.len() implies may_answer(
                    members[k],
                    *r,
                    HitScan::after(interval, longer.take(k)).window_spec(),
                    #[trigger] longer[k],
                ) by {
                    if k < answers.len() {
                        assert(longer.take(k) =~= answers.take(k));
                        assert(longer[k] == answers[k]);
                        assert(members[k] == self.objects@.take(i as int)[k]);
                    } else {
                        assert(longer.take(k) =~= answers);
                    }
                }
                answers = longer;
            }
            scan.offer(answer);
            i += 1;
        }
        proof {
            assert(self.objects@.take(i as int) =~= self.objects@);
            lemma_answered_in_turn(self.objects@, *r, interval, answers);
            lemma_closest_hit(interval, answers);
        }
        scan.found
    }
}

proof fn lemma_answered_prefix<H: Hittable>(
    objects: Seq<H>,
    r: Ray,
    interval: Interval,
    answers: Seq<Option<HitRecord>>,
    n: int,
)
    requires
        HitScan::answered(objects, r, interval, answers),
        0 <= n <= objects.len(),
    ensures
        HitScan::answered(objects.take(n), r, interval, answers.take(n)),
        HitScan::in_turn(interval, answers.take(n)),
{
    let front = answers.take(n);
    assert forall|i: int| 0 <= i < front.len() implies may_answer(
        objects.take(n)[i],
        r,
        HitScan::after(interval, front.take(i)).window_spec(),
        #[trigger] front[i],
    ) by {
        assert(front.take(i) =~= answers.take(i));
        assert(front[i] == answers[i]);
    }
    lemma_answered_in_turn(objects.take(n), r, interval, front);
}

proof fn lemma_narrowed_scan<H: Hittable>(
    objects: Seq<H>,
    r: Ray,
    whole: Interval,
    limit: Scalar,
    wide: Seq<Option<HitRecord>>,
    narrow: Seq<Option<HitRecord>>,
    n: int,
)
    requires
        limit.le_spec(whole.max),
        HitScan::answered(objects, r, whole, wide),
        HitScan::answered(objects, r, Interval { min: whole.min, max: limit }, narrow),
        forall|i: int| 0 <= i < objects.len() ==> nearest_first(#[trigger] objects[i], r),
        0 <= n <= objects.len(),
    ensures
        match HitScan::after(Interval { min: whole.min, max: limit }, narrow.take(n)).found {
            Some(h) => HitScan::after(whole, wide.take(n)).found == Some(h),
            None => HitScan::after(whole, wide.take(n)).found matches Some(g) ==> !g.t.lt_spec(
                limit,
            ),
        },
    decreases n,
{
    let below = Interval { min: whole.min, max: limit };
    if n > 0 {
        lemma_narrowed_scan(objects, r, whole, limit, wide, narrow, n - 1);
        lemma_answered_prefix(objects, r, whole, wide, n - 1);
        lemma_answered_prefix(objects, r, below, narrow, n - 1);
        lemma_closest_hit(whole, wide.take(n - 1));
        lemma_closest_hit(below, narrow.take(n - 1));
        let sx = HitScan::after(whole, wide.take(n - 1));
        let sy = HitScan::after(below, narrow.take(n - 1));
        let x = wide[n - 1];
        let y = narrow[n - 1];
        assert(wide.take(n).drop_last() =~= wide.take(n - 1));
        assert(narrow.take(n).drop_last() =~= narrow.take(n - 1));
        assert(wide.take(n).last() == x);
        assert(narrow.take(n).last() == y);
        assert(may_answer(objects[n - 1], r, sx.window_spec(), x));
        assert(may_answer(objects[n - 1], r, sy.window_spec(), y));
        assert(sy.window_spec() == (Interval {
            min: sx.window_spec().min,
            max: sy.closest_so_far,
        }));
        assert(sy.closest_so_far.le_spec(sx.closest_so_far));
        assert(nearest_first(objects[n - 1], r));
    }
}

/// A scene answers as its members do: where every member answers with
/// its nearest crossing, so does the scene.
pub proof fn lemma_scene_nearest_first<H: Hittable>(scene: HittableList<H>, r: Ray)
    requires
        forall|i: int|
            0 <= i < scene.objects@.len() ==> nearest_first(#[trigger] scene.objects@[i], r),
    ensures
        nearest_first(scene, r),
{
    assert forall|whole: Interval, limit: Scalar, x: Option<HitRecord>, y: Option<HitRecord>|
        limit.le_spec(whole.max) && #[trigger] may_answer(scene, r, whole, x)
            && #[trigger] may_answer(
            scene,
            r,
            Interval { min: whole.min, max: limit },
            y,
        ) implies match y {
        Some(h) => x == Some(h),
        None => x matches Some(g) ==> !g.t.lt_spec(limit),
    } by {
        let below = Interval { min: whole.min, max: limit };
        let wide = choose|answers: Seq<Option<HitRecord>>|
            {
                &&& HitScan::answered(scene.objects@, r, whole, answers)
                &&& x == #[trigger] HitScan::after(whole, answers).found
            };
        let narrow = choose|answers: Seq<Option<HitRecord>>|
            {
                &&& HitScan::answered(scene.objects@, r, below, answers)
                &&& y == #[trigger] HitScan::after(below, answers).found
            };
        lemma_narrowed_scan(
            scene.objects@,
            r,
            whole,
            limit,
            wide,
            narrow,
            scene.objects@.len() as int,
        );
        assert(wide.take(scene.objects@.len() as int) =~= wide);
        assert(narrow.take(scene.objects@.len() as int) =~= narrow);
    }
}

} // verus!
