use vstd::prelude::*;

use crate::device::{answers, fails_with, fits, seq_result, DeviceModel, PropertyValue, Reply, Request};

verus! {

/// The kind of a plane (`drm::control::PlaneType`).
#[derive(Clone, Copy, Debug, PartialEq, Eq, Structural)]
pub enum PlaneType {
    Overlay,
    Primary,
    Cursor,
}

/// The kernel's number for each plane type (`DRM_PLANE_TYPE_*`).
pub open spec fn plane_type_number(t: PlaneType) -> u32 {
    match t {
        PlaneType::Overlay => 0,
        PlaneType::Primary => 1,
        PlaneType::Cursor => 2,
    }
}

/// drm's `PlaneType` as `u32` for the variant of the same name.
/// Claimed: the numbers drm's enum carries, `DRM_PLANE_TYPE_OVERLAY == 0`,
/// `DRM_PLANE_TYPE_PRIMARY == 1`, `DRM_PLANE_TYPE_CURSOR == 2` (drm-sys).
#[verifier::external_body]
fn drm_plane_type_number(t: PlaneType) -> (n: u32)
    ensures
        n == plane_type_number(t),
{
    match t {
        PlaneType::Overlay => drm::control::PlaneType::Overlay as u32,
        PlaneType::Primary => drm::control::PlaneType::Primary as u32,
        PlaneType::Cursor => drm::control::PlaneType::Cursor as u32,
    }
}

/// The plane type that the raw value of a plane's "type" property names; the
/// value is read in its low 32 bits.
pub open spec fn plane_type_of_value(raw: u64) -> Option<PlaneType> {
    let n = raw as u32;
    if n == plane_type_number(PlaneType::Primary) {
        Some(PlaneType::Primary)
    } else if n == plane_type_number(PlaneType::Overlay) {
        Some(PlaneType::Overlay)
    } else if n == plane_type_number(PlaneType::Cursor) {
        Some(PlaneType::Cursor)
    } else {
        None
    }
}

/// The kernel's number of a plane type decodes to that type, and a value
/// decodes to a type only where its low 32 bits are that type's number.
pub proof fn plane_type_numbers_decode(t: PlaneType, raw: u64)
    ensures
        plane_type_of_value(plane_type_number(t) as u64) == Some(t),
        plane_type_of_value(raw) == Some(t) <==> raw as u32 == plane_type_number(t),
{
}

/// Decodes the raw value of a plane's "type" property.
pub fn decode_plane_type(raw: u64) -> (r: Option<PlaneType>)
    ensures
        r == plane_type_of_value(raw),
{
    let n = raw as u32;
    if n == drm_plane_type_number(PlaneType::Primary) {
        Some(PlaneType::Primary)
    } else if n == drm_plane_type_number(PlaneType::Overlay) {
        Some(PlaneType::Overlay)
    } else if n == drm_plane_type_number(PlaneType::Cursor) {
        Some(PlaneType::Cursor)
    } else {
        None
    }
}

/// The name, as bytes, of the property that holds a plane's type: "type".
pub open spec fn type_property_name() -> Seq<u8> {
    seq![116u8, 121u8, 112u8, 101u8]
}

/// Whether a property's name is "type".
pub fn is_type_property(name: &Vec<u8>) -> (r: bool)
    ensures
        r == (name@ == type_property_name()),
{
    let r = name.len() == 4 && name[0] == 116u8 && name[1] == 121u8 && name[2] == 112u8
        && name[3] == 101u8;
    proof {
        if r {
            assert(name@ =~= type_property_name());
        }
    }
    r
}

/// The plane type found among `props` from index `k` on: the first property
/// named "type" decides it; a property whose name cannot be read before that
/// fails the lookup; no such property gives `None`.
pub open spec fn type_among<E>(d: DeviceModel<E>, props: Seq<PropertyValue>, k: int) -> Result<
    Option<PlaneType>,
    E,
>
    decreases props.len() - k,
{
    if k < 0 || k >= props.len() {
        Ok(None)
    } else {
        match (d.property_name)(props[k].handle) {
            Err(e) => Err(e),
            Ok(name) => if name == type_property_name() {
                Ok(plane_type_of_value(props[k].value))
            } else {
                type_among(d, props, k + 1)
            },
        }
    }
}

/// The type of `plane` on device `d`, or the error of the first read that failed.
pub open spec fn plane_type_on<E>(d: DeviceModel<E>, plane: u32) -> Result<Option<PlaneType>, E> {
    match (d.properties)(plane) {
        Err(e) => Err(e),
        Ok(props) => type_among(d, props, 0),
    }
}

/// The reads a lookup makes among `props` from index `k` on: the name of
/// each property in turn, up to and including the first that is "type" or
/// whose read fails.
pub open spec fn name_reads<E>(d: DeviceModel<E>, props: Seq<PropertyValue>, k: int) -> Seq<Request>
    decreases props.len() - k,
{
    if k < 0 || k >= props.len() {
        Seq::empty()
    } else {
        seq![Request::Property(props[k].handle)] + match (d.property_name)(props[k].handle) {
            Err(_) => Seq::empty(),
            Ok(name) => if name == type_property_name() {
                Seq::empty()
            } else {
                name_reads(d, props, k + 1)
            },
        }
    }
}

/// The reads the lookup of `plane`'s type makes on device `d`, in order: the
/// plane's properties, then, where that read succeeds, the names as
/// `name_reads` says.
pub open spec fn plane_type_reads<E>(d: DeviceModel<E>, plane: u32) -> Seq<Request> {
    seq![Request::Properties(plane)] + match (d.properties)(plane) {
        Err(_) => Seq::empty(),
        Ok(props) => name_reads(d, props, 0),
    }
}

/// Whether the reads of a lookup end at what decides its result `r`: a
/// failure ends them with the failed read; a type found ends them with the
/// read of the name "type".
pub open spec fn lookup_ends_at<E>(
    d: DeviceModel<E>,
    reads: Seq<Request>,
    r: Result<Option<PlaneType>, E>,
) -> bool {
    match r {
        Err(e) => reads.len() > 0 && fails_with(d, reads.last(), e),
        Ok(Some(_)) => reads.len() > 0 && match reads.last() {
            Request::Property(h) => (d.property_name)(h) == Ok::<Seq<u8>, E>(type_property_name()),
            _ => false,
        },
        Ok(None) => true,
    }
}

proof fn lemma_name_reads_end<E>(d: DeviceModel<E>, props: Seq<PropertyValue>, k: int)
    requires
        0 <= k,
    ensures
        lookup_ends_at(d, name_reads(d, props, k), type_among(d, props, k)),
    decreases props.len() - k,
{
    if k < props.len() {
        lemma_name_reads_end(d, props, k + 1);
        let first = seq![Request::Property(props[k].handle)];
        let tail = name_reads(d, props, k + 1);
        assert((first + tail).last() == if tail.len() > 0 { tail.last() } else { first[0] });
        assert((first + Seq::<Request>::empty()) =~= first);
    }
}

/// The reads of a lookup end at what decides it: no property name is read
/// after the one named "type", nor after a failed read.
pub proof fn lookup_reads_end_at_decision<E>(d: DeviceModel<E>, plane: u32)
    ensures
        lookup_ends_at(d, plane_type_reads(d, plane), plane_type_on(d, plane)),
{
    let first = seq![Request::Properties(plane)];
    if let Ok(props) = (d.properties)(plane) {
        lemma_name_reads_end(d, props, 0);
        let tail = name_reads(d, props, 0);
        assert((first + tail).last() == if tail.len() > 0 { tail.last() } else { first[0] });
    } else {
        assert((first + Seq::<Request>::empty()) =~= first);
    }
}

proof fn lemma_first_type_property<E>(d: DeviceModel<E>, props: Seq<PropertyValue>, j: int, k: int)
    requires
        0 <= j <= k < props.len(),
        forall|m: int|
            j <= m < k ==> #[trigger] (d.property_name)(props[m].handle) is Ok && (d.property_name)(
                props[m].handle,
            )->Ok_0 != type_property_name(),
        (d.property_name)(props[k].handle) == Ok::<Seq<u8>, E>(type_property_name()),
    ensures
        type_among(d, props, j) == Ok::<Option<PlaneType>, E>(plane_type_of_value(props[k].value)),
        name_reads(d, props, j) == Seq::new(
            (k + 1 - j) as nat,
            |m: int| Request::Property(props[j + m].handle),
        ),
    decreases k - j,
{
    let expected = Seq::new((k + 1 - j) as nat, |m: int| Request::Property(props[j + m].handle));
    if j < k {
        lemma_first_type_property(d, props, j + 1, k);
        assert(name_reads(d, props, j) =~= expected);
    } else {
        assert(name_reads(d, props, j) =~= expected);
    }
}

/// The first property named "type" decides a plane's type, wherever it
/// stands, the very first property included: when the names before it all
/// read and none is "type", the lookup gives the type its value names, after
/// reading the plane's properties and the names up to and including that
/// one, and no more.
pub proof fn first_type_property_decides<E>(
    d: DeviceModel<E>,
    plane: u32,
    props: Seq<PropertyValue>,
    k: int,
)
    requires
        (d.properties)(plane) == Ok::<Seq<PropertyValue>, E>(props),
        0 <= k < props.len(),
        forall|m: int|
            0 <= m < k ==> #[trigger] (d.property_name)(props[m].handle) is Ok && (d.property_name)(
                props[m].handle,
            )->Ok_0 != type_property_name(),
        (d.property_name)(props[k].handle) == Ok::<Seq<u8>, E>(type_property_name()),
    ensures
        plane_type_on(d, plane) == Ok::<Option<PlaneType>, E>(plane_type_of_value(props[k].value)),
        plane_type_reads(d, plane) == seq![Request::Properties(plane)] + Seq::new(
            (k + 1) as nat,
            |m: int| Request::Property(props[m].handle),
        ),
{
    lemma_first_type_property(d, props, 0, k);
    assert(Seq::new((k + 1 - 0) as nat, |m: int| Request::Property(props[0 + m].handle)) =~= Seq::new(
        (k + 1) as nat,
        |m: int| Request::Property(props[m].handle),
    ));
}

/// The pending requests of a run of lookups, in order.
pub open spec fn query_requests(run: Seq<PlaneTypeQuery>) -> Seq<Request> {
    run.map_values(|q: PlaneTypeQuery| q.pending())
}

/// Where a plane-type lookup stands.
#[derive(Clone, Copy, Debug, PartialEq, Eq, Structural)]
enum QueryStage {
    AwaitProperties,
    AwaitName,
}

/// The lookup of a plane's type, driven one device read at a time: the
/// plane's properties, then the names of its properties in order until the
/// one called "type".
#[derive(Debug)]
pub struct PlaneTypeQuery {
    plane: u32,
    stage: QueryStage,
    props: Vec<PropertyValue>,
    next: usize,
}

/// What a lookup does after a reply: ask again, or finish.
pub enum QueryStep<E> {
    Next(PlaneTypeQuery, Request),
    Done(Result<Option<PlaneType>, E>),
}

/// The lexicographic order on pairs of naturals, which is well-founded.
pub open spec fn lex2_below(a: (nat, nat), b: (nat, nat)) -> bool {
    a.0 < b.0 || (a.0 == b.0 && a.1 < b.1)
}

/// What one step of a lookup promises on device `d`: a lookup handed back
/// comes with its request, stands before the one that took the reply and
/// ends as it would; a finished lookup gives just that. The reads the lookup
/// makes from here on are its pending read, then those of the lookup handed
/// back, if any.
pub open spec fn looked_up_on<E>(d: DeviceModel<E>, q: PlaneTypeQuery, step: QueryStep<E>) -> bool {
    &&& step.well_paired()
    &&& q.reads_on(d) == seq![q.pending()] + step.reads_after(d)
    &&& match step {
        QueryStep::Done(r) => r == q.outcome(d),
        QueryStep::Next(next, _) => {
            &&& lex2_below(next.progress(), q.progress())
            &&& next.outcome(d) == q.outcome(d)
        },
    }
}

/// A run of lookups in which each one stepped into the next on device `d`
/// and the last one finished with `result`.
pub open spec fn looks_up_to<E>(
    d: DeviceModel<E>,
    run: Seq<PlaneTypeQuery>,
    result: Result<Option<PlaneType>, E>,
) -> bool {
    &&& run.len() > 0
    &&& forall|i: int|
        0 <= i < run.len() - 1 ==> #[trigger] looked_up_on(
            d,
            run[i],
            QueryStep::Next(run[i + 1], run[i + 1].pending()),
        )
    &&& looked_up_on(d, run.last(), QueryStep::<E>::Done(result))
}

proof fn lemma_lookup_suffix<E>(
    d: DeviceModel<E>,
    run: Seq<PlaneTypeQuery>,
    result: Result<Option<PlaneType>, E>,
    j: int,
)
    requires
        looks_up_to(d, run, result),
        0 <= j < run.len(),
    ensures
        run[j].outcome(d) == result,
        run[j].reads_on(d) == query_requests(run.skip(j)),
    decreases run.len() - j,
{
    assert(query_requests(run.skip(j)) =~= seq![run[j].pending()] + query_requests(
        run.skip(j + 1),
    ));
    if j < run.len() - 1 {
        lemma_lookup_suffix(d, run, result, j + 1);
        assert(looked_up_on(d, run[j], QueryStep::Next(run[j + 1], run[j + 1].pending())));
    } else {
        assert(query_requests(run.skip(j + 1)) =~= Seq::<Request>::empty());
    }
}

/// A fresh lookup of a plane's type, driven with the answers of one device
/// `d` until it finishes, ends with the plane's type on `d`, and the reads it
/// asks for are exactly `plane_type_reads`: none after the "type" property
/// or after a failed read.
pub proof fn lookup_gives_plane_type<E>(
    d: DeviceModel<E>,
    run: Seq<PlaneTypeQuery>,
    result: Result<Option<PlaneType>, E>,
)
    requires
        looks_up_to(d, run, result),
        run[0].is_fresh(),
    ensures
        result == plane_type_on(d, run[0].plane()),
        query_requests(run) == plane_type_reads(d, run[0].plane()),
{
    lemma_lookup_suffix(d, run, result, 0);
    assert(run.skip(0) =~= run);
    run[0].fresh_outcome(d);
}

impl<E> QueryStep<E> {
    /// A lookup handed back comes with the request it waits for.
    pub open spec fn well_paired(self) -> bool {
        match self {
            QueryStep::Done(_) => true,
            QueryStep::Next(q, req) => req == q.pending(),
        }
    }

    /// The reads made after this step on `d`.
    pub open spec fn reads_after(self, d: DeviceModel<E>) -> Seq<Request> {
        match self {
            QueryStep::Done(_) => Seq::empty(),
            QueryStep::Next(q, _) => q.reads_on(d),
        }
    }
}

impl PlaneTypeQuery {
    #[verifier::type_invariant]
    spec fn well_formed(self) -> bool {
        self.stage == QueryStage::AwaitName ==> self.next < self.props@.len()
    }

    pub closed spec fn plane(self) -> u32 {
        self.plane
    }

    /// The read the lookup waits for.
    pub closed spec fn pending(self) -> Request {
        match self.stage {
            QueryStage::AwaitProperties => Request::Properties(self.plane),
            QueryStage::AwaitName => Request::Property(self.props@[self.next as int].handle),
        }
    }

    /// What the lookup ends with on device `d`.
    pub closed spec fn outcome<E>(self, d: DeviceModel<E>) -> Result<Option<PlaneType>, E> {
        match self.stage {
            QueryStage::AwaitProperties => plane_type_on(d, self.plane),
            QueryStage::AwaitName => type_among(d, self.props@, self.next as int),
        }
    }

    /// The reads the lookup makes on device `d` from here on, the pending one first.
    pub closed spec fn reads_on<E>(self, d: DeviceModel<E>) -> Seq<Request> {
        match self.stage {
            QueryStage::AwaitProperties => plane_type_reads(d, self.plane),
            QueryStage::AwaitName => name_reads(d, self.props@, self.next as int),
        }
    }

    /// A lookup only ever asks for reads of properties.
    pub proof fn pending_is_read(self)
        ensures
            self.pending() is Properties || self.pending() is Property,
    {
    }

    /// How far the lookup is from its end; each reply of the awaited kind
    /// lowers it in `lex2_below`.
    pub closed spec fn progress(self) -> (nat, nat) {
        match self.stage {
            QueryStage::AwaitProperties => (1, 0),
            QueryStage::AwaitName => (0, (self.props@.len() - self.next) as nat),
        }
    }

    /// Whether the lookup has read nothing yet.
    pub closed spec fn is_fresh(self) -> bool {
        self.stage == QueryStage::AwaitProperties
    }

    /// A fresh lookup ends, on any device, with the plane's type there.
    pub proof fn fresh_outcome<E>(self, d: DeviceModel<E>)
        requires
            self.is_fresh(),
        ensures
            self.outcome(d) == plane_type_on(d, self.plane()),
            self.reads_on(d) == plane_type_reads(d, self.plane()),
    {
    }

    /// Starts the lookup of `plane`'s type; it first asks for the plane's properties.
    pub fn new(plane: u32) -> (r: (PlaneTypeQuery, Request))
        ensures
            r.0.plane() == plane,
            r.1 == r.0.pending(),
            r.1 == Request::Properties(plane),
            r.0.is_fresh(),
            r.0.progress() == (1nat, 0nat),
    {
        let q = PlaneTypeQuery {
            plane,
            stage: QueryStage::AwaitProperties,
            props: Vec::new(),
            next: 0,
        };
        (q, Request::Properties(plane))
    }

    /// The read the lookup waits for.
    pub fn request(&self) -> (r: Request)
        ensures
            r == self.pending(),
    {
        proof {
            use_type_invariant(self);
        }
        match self.stage {
            QueryStage::AwaitProperties => Request::Properties(self.plane),
            QueryStage::AwaitName => Request::Property(self.props[self.next].handle),
        }
    }

    /// Takes the reply to the pending read. A reply of another kind is set
    /// aside: the lookup is handed back unchanged with the same request. On
    /// device that gives this reply to the pending read, the lookup that
    /// follows ends as this one would, and a finished lookup returns just that.
    pub fn resume<E>(self, reply: Reply<E>) -> (s: QueryStep<E>)
        ensures
            s.well_paired(),
            !fits(self.pending(), reply) ==> s == QueryStep::<E>::Next(self, self.pending()),
            fits(self.pending(), reply) ==> (s matches QueryStep::Next(q, _) ==> lex2_below(
                q.progress(),
                self.progress(),
            )),
            s matches QueryStep::Next(q, _) ==> q.plane() == self.plane(),
            forall|d: DeviceModel<E>| #[trigger]
                answers(d, self.pending(), reply) ==> looked_up_on(d, self, s),
    {
        proof {
            use_type_invariant(&self);
        }
        let pending = self.request();
        match self.stage {
            QueryStage::AwaitProperties => match reply {
                Reply::Properties(r) => match r {
                    Err(e) => QueryStep::Done(Err(e)),
                    Ok(props) => {
                        if props.len() == 0 {
                            proof {
                                assert forall|d: DeviceModel<E>|
                                    #[trigger] answers(
                                        d,
                                        self.pending(),
                                        reply,
                                    ) implies looked_up_on(d, self, QueryStep::<E>::Done(Ok(None))) by {
                                    assert((d.properties)(self.plane) == Ok::<
                                        Seq<PropertyValue>,
                                        E,
                                    >(props@));
                                    assert(name_reads(d, props@, 0) =~= Seq::<Request>::empty());
                                }
                            }
                            QueryStep::Done(Ok(None))
                        } else {
                            let h = props[0].handle;
                            let q = PlaneTypeQuery {
                                plane: self.plane,
                                stage: QueryStage::AwaitName,
                                props,
                                next: 0,
                            };
                            QueryStep::Next(q, Request::Property(h))
                        }
                    },
                },
                _ => QueryStep::Next(self, pending),
            },
            QueryStage::AwaitName => match reply {
                Reply::Property(r) => match r {
                    Err(e) => QueryStep::Done(Err(e)),
                    Ok(name) => {
                        proof {
                            assert forall|d: DeviceModel<E>|
                                #[trigger] answers(
                                    d,
                                    self.pending(),
                                    reply,
                                ) implies (d.property_name)(self.props@[self.next as int].handle)
                                == Ok::<Seq<u8>, E>(name@) by {}
                        }
                        if is_type_property(&name) {
                            QueryStep::Done(Ok(decode_plane_type(self.props[self.next].value)))
                        } else if self.next < self.props.len() - 1 {
                            let next = self.next + 1;
                            let h = self.props[next].handle;
                            let q = PlaneTypeQuery {
                                plane: self.plane,
                                stage: QueryStage::AwaitName,
                                props: self.props,
                                next,
                            };
                            QueryStep::Next(q, Request::Property(h))
                        } else {
                            proof {
                                assert forall|d: DeviceModel<E>|
                                    #[trigger] answers(
                                        d,
                                        self.pending(),
                                        reply,
                                    ) implies looked_up_on(d, self, QueryStep::<E>::Done(Ok(None))) by {
                                    assert(type_among(d, self.props@, self.next + 1) == Ok::<
                                        Option<PlaneType>,
                                        E,
                                    >(None));
                                    assert(name_reads(d, self.props@, self.next + 1)
                                        =~= Seq::<Request>::empty());
                                }
                            }
                            QueryStep::Done(Ok(None))
                        }
                    },
                },
                _ => QueryStep::Next(self, pending),
            },
        }
    }
}

} // verus!
