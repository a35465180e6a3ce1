use vstd::prelude::*;

use crate::device::{answers, fits, ConnectionState, DeviceModel, Reply, Request};
use crate::mode::{preferred_mode, same_optional, DisplayMode};
use crate::plane::{lex2_below, PlaneType, PlaneTypeQuery, QueryStep};
use crate::selection::{
    crtc_reads, crtc_stage, encoder_reads, encoder_stage, followed_by, mode_reads, notice_of,
    plane_reads, plane_stage, plane_step, prepend, primary_plane_for, search_from, search_reads,
    selection_on, selection_reads, typed_plane_reads, with_mode, Notice, Selection, Trace,
};

verus! {

/// Where a search stands: the read or notice it waits for.
#[derive(Clone, Copy, Debug, PartialEq, Eq, Structural)]
enum SearchStage {
    AwaitResources,
    AwaitConnector,
    AwaitEncoder,
    AwaitCrtc,
    AwaitReport,
    AwaitPlaneHandles,
    AwaitPlaneType,
    AwaitPlane,
}

/// The search for a connector, CRTC, mode and primary plane to put a
/// full-screen surface on, driven one device read at a time. With
/// `need_mode`, a connector whose CRTC runs no mode is passed over.
#[derive(Debug)]
pub struct OutputSearch {
    need_mode: bool,
    stage: SearchStage,
    connectors: Vec<u32>,
    conn: usize,
    encoders: Vec<u32>,
    enc: usize,
    preferred: Option<DisplayMode>,
    crtc: u32,
    current: Option<DisplayMode>,
    planes: Vec<u32>,
    plane: usize,
    query: PlaneTypeQuery,
}

/// What a search does after a reply: ask again, or finish.
pub enum SearchStep<E> {
    Next(OutputSearch, Request),
    Done(Result<Option<Selection>, E>),
}

/// A position of a search: connectors left, then the stage within the
/// connector, planes left, and the plane-type lookup's own position.
pub type Progress = (nat, nat, nat, nat, nat, nat, nat);

/// The lexicographic order on positions, which is well-founded.
pub open spec fn lex7_below(a: Progress, b: Progress) -> bool {
    ||| a.0 < b.0
    ||| a.0 == b.0 && a.1 < b.1
    ||| a.0 == b.0 && a.1 == b.1 && a.2 < b.2
    ||| a.0 == b.0 && a.1 == b.1 && a.2 == b.2 && a.3 < b.3
    ||| a.0 == b.0 && a.1 == b.1 && a.2 == b.2 && a.3 == b.3 && a.4 < b.4
    ||| a.0 == b.0 && a.1 == b.1 && a.2 == b.2 && a.3 == b.3 && a.4 == b.4 && lex2_below(
        (a.5, a.6),
        (b.5, b.6),
    )
}

/// What one step of a search promises on device `d`: a search handed back
/// comes with its request and stands before the one that took the reply;
/// what the search gives from here on is the notice handed over with the
/// pending request, if it was one, followed by what the step gives; and the
/// requests it makes from here on are the pending one, then those of the
/// search handed back, if any.
pub open spec fn resumed_on<E>(d: DeviceModel<E>, s: OutputSearch, step: SearchStep<E>) -> bool {
    &&& step.well_paired()
    &&& step.below(s.progress())
    &&& s.outcome(d) == prepend(notice_of(s.pending()), step.trace_on(d))
    &&& s.reads_on(d) == seq![s.pending()] + step.reads_after(d)
}

/// The notices that a run of searches hands over, in order: the pending
/// request of each, where it is a notice.
pub open spec fn handed_over(run: Seq<OutputSearch>) -> Seq<Notice>
    decreases run.len(),
{
    if run.len() == 0 {
        Seq::empty()
    } else {
        notice_of(run[0].pending()) + handed_over(run.drop_first())
    }
}

/// The pending requests of a run of searches, in order.
pub open spec fn search_requests(run: Seq<OutputSearch>) -> Seq<Request> {
    run.map_values(|s: OutputSearch| s.pending())
}

/// A run of searches in which each one resumed into the next on device `d`
/// and the last one finished with `result`.
pub open spec fn drives_to<E>(
    d: DeviceModel<E>,
    run: Seq<OutputSearch>,
    result: Result<Option<Selection>, E>,
) -> bool {
    &&& run.len() > 0
    &&& forall|i: int|
        0 <= i < run.len() - 1 ==> #[trigger] resumed_on(
            d,
            run[i],
            SearchStep::Next(run[i + 1], run[i + 1].pending()),
        )
    &&& resumed_on(d, run.last(), SearchStep::<E>::Done(result))
}

proof fn lemma_drive_suffix<E>(
    d: DeviceModel<E>,
    run: Seq<OutputSearch>,
    result: Result<Option<Selection>, E>,
    j: int,
)
    requires
        drives_to(d, run, result),
        0 <= j < run.len(),
    ensures
        run[j].outcome(d) == (Trace { notices: handed_over(run.skip(j)), result }),
        run[j].reads_on(d) == search_requests(run.skip(j)),
    decreases run.len() - j,
{
    let rest = run.skip(j);
    let n = notice_of(run[j].pending());
    assert(rest.drop_first() =~= run.skip(j + 1));
    assert(search_requests(rest) =~= seq![run[j].pending()] + search_requests(run.skip(j + 1)));
    if j == run.len() - 1 {
        assert(run.skip(j + 1) =~= Seq::<OutputSearch>::empty());
        assert(handed_over(run.skip(j + 1)) =~= Seq::<Notice>::empty());
        assert(search_requests(run.skip(j + 1)) =~= Seq::<Request>::empty());
        assert(n + Seq::<Notice>::empty() =~= n);
    } else {
        lemma_drive_suffix(d, run, result, j + 1);
        assert(resumed_on(d, run[j], SearchStep::Next(run[j + 1], run[j + 1].pending())));
        assert(Seq::<Notice>::empty() + handed_over(run.skip(j + 1)) =~= handed_over(
            run.skip(j + 1),
        ));
    }
}

/// A fresh search, driven with the answers of one device `d` until it
/// finishes, hands over the notices and ends with the result that
/// `selection_on(d)` gives, and the requests it makes, in order, are
/// exactly `selection_reads(d)`.
pub proof fn drive_gives_selection<E>(
    d: DeviceModel<E>,
    run: Seq<OutputSearch>,
    result: Result<Option<Selection>, E>,
)
    requires
        drives_to(d, run, result),
        run[0].is_fresh(),
    ensures
        selection_on(d, run[0].need_mode()) == (Trace { notices: handed_over(run), result }),
        search_requests(run) == selection_reads(d, run[0].need_mode()),
{
    lemma_drive_suffix(d, run, result, 0);
    assert(run.skip(0) =~= run);
    run[0].fresh_outcome(d);
}

/// Whether `v` holds `x`.
fn holds(v: &Vec<u32>, x: u32) -> (r: bool)
    ensures
        r == v@.contains(x),
{
    let mut i: usize = 0;
    while i < v.len()
        invariant
            i <= v.len(),
            forall|j: int| 0 <= j < i ==> v@[j] != x,
        decreases v.len() - i,
    {
        if v[i] == x {
            assert(v@[i as int] == x);
            return true;
        }
        i = i + 1;
    }
    false
}

impl<E> SearchStep<E> {
    /// What the search gives on `d` from this step on.
    pub open spec fn trace_on(self, d: DeviceModel<E>) -> Trace<E> {
        match self {
            SearchStep::Done(r) => Trace { notices: Seq::empty(), result: r },
            SearchStep::Next(s, _) => s.outcome(d),
        }
    }

    /// The requests made after this step on `d`.
    pub open spec fn reads_after(self, d: DeviceModel<E>) -> Seq<Request> {
        match self {
            SearchStep::Done(_) => Seq::empty(),
            SearchStep::Next(s, _) => s.reads_on(d),
        }
    }

    /// A search handed back stands before `bound`.
    pub open spec fn below(self, bound: Progress) -> bool {
        match self {
            SearchStep::Done(_) => true,
            SearchStep::Next(s, _) => lex7_below(s.progress(), bound),
        }
    }

    /// A search handed back comes with the request it waits for.
    pub open spec fn well_paired(self) -> bool {
        match self {
            SearchStep::Done(_) => true,
            SearchStep::Next(s, req) => req == s.pending(),
        }
    }
}

impl OutputSearch {
    #[verifier::type_invariant]
    spec fn well_formed(self) -> bool {
        let holds_mode = !(self.need_mode && self.current is None);
        let in_connector = self.conn < self.connectors@.len();
        &&& self.connectors@.len() <= usize::MAX
        &&& self.encoders@.len() <= usize::MAX
        &&& self.planes@.len() <= usize::MAX
        &&& match self.stage {
            SearchStage::AwaitResources => true,
            SearchStage::AwaitConnector => in_connector,
            SearchStage::AwaitEncoder => in_connector && self.enc < self.encoders@.len(),
            SearchStage::AwaitCrtc => in_connector,
            SearchStage::AwaitReport => in_connector,
            SearchStage::AwaitPlaneHandles => in_connector && holds_mode,
            SearchStage::AwaitPlaneType => in_connector && holds_mode && self.plane
                < self.planes@.len(),
            SearchStage::AwaitPlane => in_connector && holds_mode && self.plane
                < self.planes@.len(),
        }
    }

    /// Whether a connector whose CRTC runs no mode is passed over.
    pub closed spec fn need_mode(self) -> bool {
        self.need_mode
    }

    /// How far the search is from its end; each reply of the awaited kind
    /// lowers it in `lex7_below`.
    pub closed spec fn progress(self) -> Progress {
        let left = (self.connectors@.len() - self.conn) as nat;
        let planes_left = (self.planes@.len() - self.plane) as nat;
        match self.stage {
            SearchStage::AwaitResources => (1, 0, 0, 0, 0, 0, 0),
            SearchStage::AwaitConnector => (0, left, 6, 0, 0, 0, 0),
            SearchStage::AwaitEncoder => (
                0,
                left,
                5,
                (self.encoders@.len() - self.enc) as nat,
                0,
                0,
                0,
            ),
            SearchStage::AwaitCrtc => (0, left, 4, 0, 0, 0, 0),
            SearchStage::AwaitReport => (0, left, 3, 0, 0, 0, 0),
            SearchStage::AwaitPlaneHandles => (0, left, 2, 0, 0, 0, 0),
            SearchStage::AwaitPlaneType => (
                0,
                left,
                1,
                planes_left,
                1,
                self.query.progress().0,
                self.query.progress().1,
            ),
            SearchStage::AwaitPlane => (0, left, 1, planes_left, 0, 0, 0),
        }
    }

    /// Whether the search has read nothing yet.
    pub closed spec fn is_fresh(self) -> bool {
        self.stage == SearchStage::AwaitResources
    }

    /// The read, or notice, that the search waits for.
    pub closed spec fn pending(self) -> Request {
        match self.stage {
            SearchStage::AwaitResources => Request::Resources,
            SearchStage::AwaitConnector => Request::Connector(self.connectors@[self.conn as int]),
            SearchStage::AwaitEncoder => Request::Encoder(self.encoders@[self.enc as int]),
            SearchStage::AwaitCrtc => Request::Crtc(self.crtc),
            SearchStage::AwaitReport => Request::ReportModeMismatch {
                current: self.current,
                preferred: self.preferred,
            },
            SearchStage::AwaitPlaneHandles => Request::PlaneHandles,
            SearchStage::AwaitPlaneType => self.query.pending(),
            SearchStage::AwaitPlane => Request::Plane(self.planes@[self.plane as int]),
        }
    }

    /// What the plane scan gives once the type of the current plane is `t`.
    spec fn scanned<E>(self, d: DeviceModel<E>, t: Result<Option<PlaneType>, E>) -> Trace<E> {
        Trace {
            notices: Seq::empty(),
            result: with_mode(
                plane_step(d, t, self.planes@, self.plane as int, self.crtc),
                self.current,
            ),
        }
    }

    /// What the search gives on device `d` from here on, the notice that it
    /// waits to hand over included.
    pub closed spec fn outcome<E>(self, d: DeviceModel<E>) -> Trace<E> {
        let nm = self.need_mode;
        let rest = search_from(d, nm, self.connectors@, self.conn + 1);
        match self.stage {
            SearchStage::AwaitResources => selection_on(d, nm),
            SearchStage::AwaitConnector => search_from(d, nm, self.connectors@, self.conn as int),
            SearchStage::AwaitEncoder => followed_by(
                encoder_stage(d, nm, self.encoders@, self.enc as int, self.preferred),
                rest,
            ),
            SearchStage::AwaitCrtc => followed_by(crtc_stage(d, nm, self.crtc, self.preferred), rest),
            SearchStage::AwaitReport => followed_by(
                Trace {
                    notices: seq![(self.current, self.preferred)],
                    result: plane_stage(d, nm, self.crtc, self.current),
                },
                rest,
            ),
            SearchStage::AwaitPlaneHandles => followed_by(
                Trace {
                    notices: Seq::empty(),
                    result: plane_stage(d, nm, self.crtc, self.current),
                },
                rest,
            ),
            SearchStage::AwaitPlaneType => followed_by(self.scanned(d, self.query.outcome(d)), rest),
            SearchStage::AwaitPlane => followed_by(
                self.scanned(d, Ok(Some(PlaneType::Primary))),
                rest,
            ),
        }
    }

    /// The requests the search makes on device `d` from here on, the pending
    /// one first.
    pub closed spec fn reads_on<E>(self, d: DeviceModel<E>) -> Seq<Request> {
        let nm = self.need_mode;
        let c = self.connectors@;
        let i = self.conn as int;
        match self.stage {
            SearchStage::AwaitResources => selection_reads(d, nm),
            SearchStage::AwaitConnector => search_reads(d, nm, c, i),
            SearchStage::AwaitEncoder => encoder_reads(
                d,
                nm,
                c,
                i,
                self.encoders@,
                self.enc as int,
                self.preferred,
            ),
            SearchStage::AwaitCrtc => crtc_reads(d, nm, c, i, self.crtc, self.preferred),
            SearchStage::AwaitReport => seq![
                Request::ReportModeMismatch { current: self.current, preferred: self.preferred },
            ] + mode_reads(d, nm, c, i, self.crtc, self.current),
            SearchStage::AwaitPlaneHandles => mode_reads(d, nm, c, i, self.crtc, self.current),
            SearchStage::AwaitPlaneType => self.query.reads_on(d) + typed_plane_reads(
                d,
                nm,
                c,
                i,
                self.crtc,
                self.planes@,
                self.plane as int,
                self.query.outcome(d),
            ),
            SearchStage::AwaitPlane => typed_plane_reads(
                d,
                nm,
                c,
                i,
                self.crtc,
                self.planes@,
                self.plane as int,
                Ok(Some(PlaneType::Primary)),
            ),
        }
    }

    /// A fresh search gives, on any device, what `selection_on` says, with
    /// the requests that `selection_reads` says.
    pub proof fn fresh_outcome<E>(self, d: DeviceModel<E>)
        requires
            self.is_fresh(),
        ensures
            self.outcome(d) == selection_on(d, self.need_mode()),
            self.reads_on(d) == selection_reads(d, self.need_mode()),
    {
    }

    /// Starts a search; it first asks for the device's resources.
    pub fn new(need_mode: bool) -> (r: (OutputSearch, Request))
        ensures
            r.0.is_fresh(),
            r.0.need_mode() == need_mode,
            r.1 == r.0.pending(),
            r.1 == Request::Resources,
    {
        let s = OutputSearch {
            need_mode,
            stage: SearchStage::AwaitResources,
            connectors: Vec::new(),
            conn: 0,
            encoders: Vec::new(),
            enc: 0,
            preferred: None,
            crtc: 0,
            current: None,
            planes: Vec::new(),
            plane: 0,
            query: PlaneTypeQuery::new(0).0,
        };
        (s, Request::Resources)
    }

    /// The read, or notice, that the search waits for.
    pub fn request(&self) -> (r: Request)
        ensures
            r == self.pending(),
    {
        proof {
            use_type_invariant(self);
        }
        match self.stage {
            SearchStage::AwaitResources => Request::Resources,
            SearchStage::AwaitConnector => Request::Connector(self.connectors[self.conn]),
            SearchStage::AwaitEncoder => Request::Encoder(self.encoders[self.enc]),
            SearchStage::AwaitCrtc => Request::Crtc(self.crtc),
            SearchStage::AwaitReport => Request::ReportModeMismatch {
                current: self.current,
                preferred: self.preferred,
            },
            SearchStage::AwaitPlaneHandles => Request::PlaneHandles,
            SearchStage::AwaitPlaneType => self.query.request(),
            SearchStage::AwaitPlane => Request::Plane(self.planes[self.plane]),
        }
    }

    /// Goes on with `connectors[from]`, or ends having found nothing.
    fn advance_connector<E>(need_mode: bool, connectors: Vec<u32>, from: usize) -> (s: SearchStep<
        E,
    >)
        requires
            from <= connectors@.len(),
        ensures
            s.well_paired(),
            s.below((0, (connectors@.len() - from + 1) as nat, 0, 0, 0, 0, 0)),
            forall|d: DeviceModel<E>| #[trigger]
                s.trace_on(d) == search_from(d, need_mode, connectors@, from as int),
            forall|d: DeviceModel<E>| #[trigger]
                s.reads_after(d) == search_reads(d, need_mode, connectors@, from as int),
    {
        if from < connectors.len() {
            let h = connectors[from];
            let s = OutputSearch {
                need_mode,
                stage: SearchStage::AwaitConnector,
                connectors,
                conn: from,
                encoders: Vec::new(),
                enc: 0,
                preferred: None,
                crtc: 0,
                current: None,
                planes: Vec::new(),
                plane: 0,
                query: PlaneTypeQuery::new(0).0,
            };
            SearchStep::Next(s, Request::Connector(h))
        } else {
            SearchStep::Done(Ok(None))
        }
    }

    /// Goes on with the encoder `encoders[from]` of connector `connectors[conn]`,
    /// or with the next connector when none is left.
    fn try_encoders<E>(
        need_mode: bool,
        connectors: Vec<u32>,
        conn: usize,
        encoders: Vec<u32>,
        from: usize,
        preferred: Option<DisplayMode>,
    ) -> (s: SearchStep<E>)
        requires
            conn < connectors@.len() <= usize::MAX,
            from <= encoders@.len(),
        ensures
            s.below(
                (
                    0,
                    (connectors@.len() - conn) as nat,
                    5,
                    (encoders@.len() - from + 1) as nat,
                    0,
                    0,
                    0,
                ),
            ),
            s.well_paired(),
            forall|d: DeviceModel<E>| #[trigger]
                s.trace_on(d) == followed_by(
                    encoder_stage(d, need_mode, encoders@, from as int, preferred),
                    search_from(d, need_mode, connectors@, conn + 1),
                ),
            forall|d: DeviceModel<E>| #[trigger]
                s.reads_after(d) == encoder_reads(
                    d,
                    need_mode,
                    connectors@,
                    conn as int,
                    encoders@,
                    from as int,
                    preferred,
                ),
    {
        if from < encoders.len() {
            let h = encoders[from];
            let s = OutputSearch {
                need_mode,
                stage: SearchStage::AwaitEncoder,
                connectors,
                conn,
                encoders,
                enc: from,
                preferred,
                crtc: 0,
                current: None,
                planes: Vec::new(),
                plane: 0,
                query: PlaneTypeQuery::new(0).0,
            };
            SearchStep::Next(s, Request::Encoder(h))
        } else {
            Self::advance_connector(need_mode, connectors, conn + 1)
        }
    }

    /// Goes on once the CRTC's current mode is known and any notice is handed
    /// over: to the planes, or to the next connector when a mode is needed
    /// and the CRTC runs none.
    fn after_crtc_mode<E>(
        need_mode: bool,
        connectors: Vec<u32>,
        conn: usize,
        crtc: u32,
        current: Option<DisplayMode>,
        preferred: Option<DisplayMode>,
    ) -> (s: SearchStep<E>)
        requires
            conn < connectors@.len() <= usize::MAX,
        ensures
            s.below((0, (connectors@.len() - conn) as nat, 3, 0, 0, 0, 0)),
            s.well_paired(),
            forall|d: DeviceModel<E>| #[trigger]
                s.trace_on(d) == followed_by(
                    Trace {
                        notices: Seq::empty(),
                        result: plane_stage(d, need_mode, crtc, current),
                    },
                    search_from(d, need_mode, connectors@, conn + 1),
                ),
            forall|d: DeviceModel<E>| #[trigger]
                s.reads_after(d) == mode_reads(d, need_mode, connectors@, conn as int, crtc, current),
    {
        if need_mode && current.is_none() {
            Self::advance_connector(need_mode, connectors, conn + 1)
        } else {
            let s = OutputSearch {
                need_mode,
                stage: SearchStage::AwaitPlaneHandles,
                connectors,
                conn,
                encoders: Vec::new(),
                enc: 0,
                preferred,
                crtc,
                current,
                planes: Vec::new(),
                plane: 0,
                query: PlaneTypeQuery::new(0).0,
            };
            SearchStep::Next(s, Request::PlaneHandles)
        }
    }

    /// Goes on with the plane `planes[from]`, or with the next connector
    /// when none is left.
    fn try_planes<E>(
        need_mode: bool,
        connectors: Vec<u32>,
        conn: usize,
        crtc: u32,
        current: Option<DisplayMode>,
        preferred: Option<DisplayMode>,
        planes: Vec<u32>,
        from: usize,
    ) -> (s: SearchStep<E>)
        requires
            conn < connectors@.len() <= usize::MAX,
            from <= planes@.len(),
            !(need_mode && current is None),
        ensures
            s.below(
                (
                    0,
                    (connectors@.len() - conn) as nat,
                    1,
                    (planes@.len() - from + 1) as nat,
                    0,
                    0,
                    0,
                ),
            ),
            s.well_paired(),
            forall|d: DeviceModel<E>| #[trigger]
                s.trace_on(d) == followed_by(
                    Trace {
                        notices: Seq::empty(),
                        result: with_mode(
                            primary_plane_for(d, planes@, from as int, crtc),
                            current,
                        ),
                    },
                    search_from(d, need_mode, connectors@, conn + 1),
                ),
            forall|d: DeviceModel<E>| #[trigger]
                s.reads_after(d) == plane_reads(
                    d,
                    need_mode,
                    connectors@,
                    conn as int,
                    crtc,
                    planes@,
                    from as int,
                ),
    {
        if from < planes.len() {
            let (query, req) = PlaneTypeQuery::new(planes[from]);
            let s = OutputSearch {
                need_mode,
                stage: SearchStage::AwaitPlaneType,
                connectors,
                conn,
                encoders: Vec::new(),
                enc: 0,
                preferred,
                crtc,
                current,
                planes,
                plane: from,
                query,
            };
            proof {
                assert forall|d: DeviceModel<E>|
                    #[trigger] s.outcome(d) == followed_by(
                        Trace {
                            notices: Seq::empty(),
                            result: with_mode(
                                primary_plane_for(d, s.planes@, from as int, crtc),
                                current,
                            ),
                        },
                        search_from(d, need_mode, s.connectors@, conn + 1),
                    ) by {
                    query.fresh_outcome(d);
                }
                assert forall|d: DeviceModel<E>| #[trigger]
                    s.reads_on(d) == plane_reads(
                        d,
                        need_mode,
                        s.connectors@,
                        conn as int,
                        crtc,
                        s.planes@,
                        from as int,
                    ) by {
                    query.fresh_outcome(d);
                }
            }
            SearchStep::Next(s, req)
        } else {
            Self::advance_connector(need_mode, connectors, conn + 1)
        }
    }

    /// Takes the reply to the pending read or notice. A reply of another
    /// kind is set aside: the search is handed back unchanged with the same
    /// request. A reply of the awaited kind moves the search forward, and on
    /// any device that gives it, the step keeps what `resumed_on` says.
    pub fn resume<E>(self, reply: Reply<E>) -> (s: SearchStep<E>)
        ensures
            s.well_paired(),
            !fits(self.pending(), reply) ==> s == SearchStep::<E>::Next(self, self.pending()),
            fits(self.pending(), reply) ==> s.below(self.progress()),
            forall|d: DeviceModel<E>| #[trigger]
                answers(d, self.pending(), reply) ==> resumed_on(d, self, s),
    {
        match self.stage {
            SearchStage::AwaitResources => self.on_resources(reply),
            SearchStage::AwaitConnector => self.on_connector(reply),
            SearchStage::AwaitEncoder => self.on_encoder(reply),
            SearchStage::AwaitCrtc => self.on_crtc(reply),
            SearchStage::AwaitReport => self.on_report(reply),
            SearchStage::AwaitPlaneHandles => self.on_plane_handles(reply),
            SearchStage::AwaitPlaneType => self.on_plane_type(reply),
            SearchStage::AwaitPlane => self.on_plane(reply),
        }
    }

    fn on_resources<E>(self, reply: Reply<E>) -> (s: SearchStep<E>)
        requires
            self.stage == SearchStage::AwaitResources,
        ensures
            s.well_paired(),
            !fits(self.pending(), reply) ==> s == SearchStep::<E>::Next(self, self.pending()),
            fits(self.pending(), reply) ==> s.below(self.progress()),
            forall|d: DeviceModel<E>| #[trigger]
                answers(d, self.pending(), reply) ==> resumed_on(d, self, s),
    {
        proof {
            use_type_invariant(&self);
        }
        let pending = self.request();
        let need_mode = self.need_mode;
        let conn = self.conn;
        match reply {
            Reply::Resources(Err(e)) => SearchStep::Done(Err(e)),
            Reply::Resources(Ok(connectors)) => Self::advance_connector(need_mode, connectors, 0),
            _ => SearchStep::Next(self, pending),
        }
    }

    fn on_connector<E>(self, reply: Reply<E>) -> (s: SearchStep<E>)
        requires
            self.stage == SearchStage::AwaitConnector,
        ensures
            s.well_paired(),
            !fits(self.pending(), reply) ==> s == SearchStep::<E>::Next(self, self.pending()),
            fits(self.pending(), reply) ==> s.below(self.progress()),
            forall|d: DeviceModel<E>| #[trigger]
                answers(d, self.pending(), reply) ==> resumed_on(d, self, s),
    {
        proof {
            use_type_invariant(&self);
        }
        let pending = self.request();
        let need_mode = self.need_mode;
        let conn = self.conn;
        match reply {
            Reply::Connector(Err(_)) => Self::advance_connector(need_mode, self.connectors, conn + 1),
            Reply::Connector(Ok(info)) => {
                if info.state != ConnectionState::Connected {
                    Self::advance_connector(need_mode, self.connectors, conn + 1)
                } else {
                    let preferred = preferred_mode(&info.modes);
                    Self::try_encoders(need_mode, self.connectors, conn, info.encoders, 0, preferred)
                }
            },
            _ => SearchStep::Next(self, pending),
        }
    }

    fn on_encoder<E>(self, reply: Reply<E>) -> (s: SearchStep<E>)
        requires
            self.stage == SearchStage::AwaitEncoder,
        ensures
            s.well_paired(),
            !fits(self.pending(), reply) ==> s == SearchStep::<E>::Next(self, self.pending()),
            fits(self.pending(), reply) ==> s.below(self.progress()),
            forall|d: DeviceModel<E>| #[trigger]
                answers(d, self.pending(), reply) ==> resumed_on(d, self, s),
    {
        proof {
            use_type_invariant(&self);
        }
        let pending = self.request();
        let need_mode = self.need_mode;
        let conn = self.conn;
        match reply {
            Reply::Encoder(r) => {
                let enc = self.enc;
                let preferred = self.preferred;
                let found = match &r {
                    Ok(crtcs) => if crtcs.len() > 0 {
                        Some(crtcs[0])
                    } else {
                        None
                    },
                    Err(_) => None,
                };
                match found {
                    Some(crtc) => {
                        let next = OutputSearch {
                            need_mode,
                            stage: SearchStage::AwaitCrtc,
                            connectors: self.connectors,
                            conn,
                            encoders: Vec::new(),
                            enc: 0,
                            preferred,
                            crtc,
                            current: None,
                            planes: Vec::new(),
                            plane: 0,
                            query: PlaneTypeQuery::new(0).0,
                        };
                        SearchStep::Next(next, Request::Crtc(crtc))
                    },
                    None => Self::try_encoders(
                        need_mode,
                        self.connectors,
                        conn,
                        self.encoders,
                        enc + 1,
                        preferred,
                    ),
                }
            },
            _ => SearchStep::Next(self, pending),
        }
    }

    fn on_crtc<E>(self, reply: Reply<E>) -> (s: SearchStep<E>)
        requires
            self.stage == SearchStage::AwaitCrtc,
        ensures
            s.well_paired(),
            !fits(self.pending(), reply) ==> s == SearchStep::<E>::Next(self, self.pending()),
            fits(self.pending(), reply) ==> s.below(self.progress()),
            forall|d: DeviceModel<E>| #[trigger]
                answers(d, self.pending(), reply) ==> resumed_on(d, self, s),
    {
        proof {
            use_type_invariant(&self);
        }
        let pending = self.request();
        let need_mode = self.need_mode;
        let conn = self.conn;
        match reply {
            Reply::Crtc(Err(e)) => SearchStep::Done(Err(e)),
            Reply::Crtc(Ok(current)) => {
                let preferred = self.preferred;
                let crtc = self.crtc;
                if !same_optional(&current, &preferred) {
                    let next = OutputSearch {
                        need_mode,
                        stage: SearchStage::AwaitReport,
                        connectors: self.connectors,
                        conn,
                        encoders: Vec::new(),
                        enc: 0,
                        preferred,
                        crtc,
                        current,
                        planes: Vec::new(),
                        plane: 0,
                        query: PlaneTypeQuery::new(0).0,
                    };
                    SearchStep::Next(next, Request::ReportModeMismatch { current, preferred })
                } else {
                    Self::after_crtc_mode(need_mode, self.connectors, conn, crtc, current, preferred)
                }
            },
            _ => SearchStep::Next(self, pending),
        }
    }

    fn on_report<E>(self, reply: Reply<E>) -> (s: SearchStep<E>)
        requires
            self.stage == SearchStage::AwaitReport,
        ensures
            s.well_paired(),
            !fits(self.pending(), reply) ==> s == SearchStep::<E>::Next(self, self.pending()),
            fits(self.pending(), reply) ==> s.below(self.progress()),
            forall|d: DeviceModel<E>| #[trigger]
                answers(d, self.pending(), reply) ==> resumed_on(d, self, s),
    {
        proof {
            use_type_invariant(&self);
        }
        let pending = self.request();
        let need_mode = self.need_mode;
        let conn = self.conn;
        match reply {
            Reply::Reported => {
                let current = self.current;
                let preferred = self.preferred;
                let ghost c = self.connectors@;
                let s = Self::after_crtc_mode(
                    need_mode,
                    self.connectors,
                    conn,
                    self.crtc,
                    current,
                    preferred,
                );
                proof {
                    assert forall|d: DeviceModel<E>| #[trigger]
                        answers(d, self.pending(), reply) implies resumed_on(d, self, s) by {
                        let rest = search_from(d, need_mode, c, conn + 1);
                        let n: Seq<Notice> = seq![(current, preferred)];
                        assert(n + (Seq::<Notice>::empty() + rest.notices) =~= n + rest.notices);
                        assert(Seq::<Notice>::empty() + rest.notices =~= rest.notices);
                        assert(n + Seq::<Notice>::empty() =~= n);
                    }
                }
                s
            },
            _ => SearchStep::Next(self, pending),
        }
    }

    fn on_plane_handles<E>(self, reply: Reply<E>) -> (s: SearchStep<E>)
        requires
            self.stage == SearchStage::AwaitPlaneHandles,
        ensures
            s.well_paired(),
            !fits(self.pending(), reply) ==> s == SearchStep::<E>::Next(self, self.pending()),
            fits(self.pending(), reply) ==> s.below(self.progress()),
            forall|d: DeviceModel<E>| #[trigger]
                answers(d, self.pending(), reply) ==> resumed_on(d, self, s),
    {
        proof {
            use_type_invariant(&self);
        }
        let pending = self.request();
        let need_mode = self.need_mode;
        let conn = self.conn;
        match reply {
            Reply::PlaneHandles(Err(e)) => SearchStep::Done(Err(e)),
            Reply::PlaneHandles(Ok(planes)) => Self::try_planes(
                need_mode,
                self.connectors,
                conn,
                self.crtc,
                self.current,
                self.preferred,
                planes,
                0,
            ),
            _ => SearchStep::Next(self, pending),
        }
    }

    fn on_plane_type<E>(self, reply: Reply<E>) -> (s: SearchStep<E>)
        requires
            self.stage == SearchStage::AwaitPlaneType,
        ensures
            s.well_paired(),
            !fits(self.pending(), reply) ==> s == SearchStep::<E>::Next(self, self.pending()),
            fits(self.pending(), reply) ==> s.below(self.progress()),
            forall|d: DeviceModel<E>| #[trigger]
                answers(d, self.pending(), reply) ==> resumed_on(d, self, s),
    {
        proof {
            use_type_invariant(&self);
        }
        let pending = self.request();
        let need_mode = self.need_mode;
        let conn = self.conn;
        let plane = self.plane;
        let crtc = self.crtc;
        let current = self.current;
        let preferred = self.preferred;
        let ghost q0 = self.query;
        let ghost ps = self.planes@;
        let ghost c = self.connectors@;
        let s = match self.query.resume(reply) {
            QueryStep::Next(query, req) => {
                let next = OutputSearch {
                    need_mode,
                    stage: SearchStage::AwaitPlaneType,
                    connectors: self.connectors,
                    conn,
                    encoders: self.encoders,
                    enc: self.enc,
                    preferred,
                    crtc,
                    current,
                    planes: self.planes,
                    plane,
                    query,
                };
                SearchStep::Next(next, req)
            },
            QueryStep::Done(Err(e)) => SearchStep::Done(Err(e)),
            QueryStep::Done(Ok(t)) => {
                if t == Some(PlaneType::Primary) {
                    let h = self.planes[plane];
                    let next = OutputSearch {
                        need_mode,
                        stage: SearchStage::AwaitPlane,
                        connectors: self.connectors,
                        conn,
                        encoders: Vec::new(),
                        enc: 0,
                        preferred,
                        crtc,
                        current,
                        planes: self.planes,
                        plane,
                        query: PlaneTypeQuery::new(0).0,
                    };
                    SearchStep::Next(next, Request::Plane(h))
                } else {
                    Self::try_planes(
                        need_mode,
                        self.connectors,
                        conn,
                        crtc,
                        current,
                        preferred,
                        self.planes,
                        plane + 1,
                    )
                }
            },
        };
        proof {
            assert forall|d: DeviceModel<E>| #[trigger]
                answers(d, self.pending(), reply) implies resumed_on(d, self, s) by {
                assert(answers(d, q0.pending(), reply));
                q0.pending_is_read();
                let tail = typed_plane_reads(
                    d,
                    need_mode,
                    c,
                    conn as int,
                    crtc,
                    ps,
                    plane as int,
                    q0.outcome(d),
                );
                match s {
                    SearchStep::Next(next, _) => {
                        if next.stage == SearchStage::AwaitPlaneType {
                            let q1 = next.query;
                            assert(seq![q0.pending()] + q1.reads_on(d) + tail =~= seq![
                                q0.pending(),
                            ] + (q1.reads_on(d) + tail));
                        } else {
                            assert(seq![q0.pending()] + Seq::<Request>::empty() + tail =~= seq![
                                q0.pending(),
                            ] + tail);
                        }
                    },
                    SearchStep::Done(_) => {
                        assert(seq![q0.pending()] + Seq::<Request>::empty() + tail =~= seq![
                            q0.pending(),
                        ] + tail);
                    },
                }
            }
        }
        s
    }

    fn on_plane<E>(self, reply: Reply<E>) -> (s: SearchStep<E>)
        requires
            self.stage == SearchStage::AwaitPlane,
        ensures
            s.well_paired(),
            !fits(self.pending(), reply) ==> s == SearchStep::<E>::Next(self, self.pending()),
            fits(self.pending(), reply) ==> s.below(self.progress()),
            forall|d: DeviceModel<E>| #[trigger]
                answers(d, self.pending(), reply) ==> resumed_on(d, self, s),
    {
        proof {
            use_type_invariant(&self);
        }
        let pending = self.request();
        let need_mode = self.need_mode;
        let conn = self.conn;
        match reply {
            Reply::Plane(Err(e)) => SearchStep::Done(Err(e)),
            Reply::Plane(Ok(crtcs)) => {
                let plane = self.plane;
                if holds(&crtcs, self.crtc) {
                    SearchStep::Done(
                        Ok(Some(Selection { plane: self.planes[plane], mode: self.current })),
                    )
                } else {
                    Self::try_planes(
                        need_mode,
                        self.connectors,
                        conn,
                        self.crtc,
                        self.current,
                        self.preferred,
                        self.planes,
                        plane + 1,
                    )
                }
            },
            _ => SearchStep::Next(self, pending),
        }
    }
}

} // verus!
