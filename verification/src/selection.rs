use vstd::prelude::*;

use crate::device::{fails_with, ConnectionState, ConnectorModel, DeviceModel, PropertyValue, Request};
use crate::mode::{preferred_of, same_optional_is_equality, same_optional_mode, DisplayMode};
use crate::plane::{
    lookup_ends_at, lookup_reads_end_at_decision, plane_type_on, type_among, plane_type_reads, PlaneType,
};

verus! {

/// Where a full-screen surface goes: a primary plane, and the mode that the
/// CRTC it is shown on currently runs.
#[derive(Clone, Copy, Debug)]
pub struct Selection {
    pub plane: u32,
    pub mode: Option<DisplayMode>,
}

/// A notice that a CRTC runs another mode than its connector prefers:
/// `(current, preferred)`.
pub type Notice = (Option<DisplayMode>, Option<DisplayMode>);

/// What a search gives on a device: its notices in order, then its result.
/// As the part of one connector, a result of `Ok(None)` means that the search
/// goes on with the next connector.
pub struct Trace<E> {
    pub notices: Seq<Notice>,
    pub result: Result<Option<Selection>, E>,
}

/// No notice, and nothing found.
pub open spec fn empty_trace<E>() -> Trace<E> {
    Trace { notices: Seq::empty(), result: Ok(None) }
}

/// A trace with notices put in front.
pub open spec fn prepend<E>(notices: Seq<Notice>, t: Trace<E>) -> Trace<E> {
    if notices.len() == 0 {
        t
    } else {
        Trace { notices: notices + t.notices, result: t.result }
    }
}

/// A connector's part followed by the rest of the search: the rest counts
/// only where the connector's part found nothing.
pub open spec fn followed_by<E>(part: Trace<E>, rest: Trace<E>) -> Trace<E> {
    match part.result {
        Ok(None) => prepend(part.notices, rest),
        _ => part,
    }
}

/// The notice given when the current mode differs from the preferred one.
pub open spec fn mismatch_notice(current: Option<DisplayMode>, preferred: Option<DisplayMode>) -> Seq<
    Notice,
> {
    if same_optional_mode(current, preferred) {
        Seq::empty()
    } else {
        seq![(current, preferred)]
    }
}

/// The notice that a request hands to the driver, if it is one.
pub open spec fn notice_of(req: Request) -> Seq<Notice> {
    match req {
        Request::ReportModeMismatch { current, preferred } => seq![(current, preferred)],
        _ => Seq::empty(),
    }
}

/// The first CRTC that one of `encoders[j..]` can drive, taking for each
/// encoder the first CRTC in its list; an encoder whose read fails or that
/// drives no CRTC is passed over.
pub open spec fn first_crtc<E>(d: DeviceModel<E>, encoders: Seq<u32>, j: int) -> Option<u32>
    decreases encoders.len() - j,
{
    if j < 0 || j >= encoders.len() {
        None
    } else {
        match (d.encoder_crtcs)(encoders[j]) {
            Ok(crtcs) => if crtcs.len() > 0 {
                Some(crtcs[0])
            } else {
                first_crtc(d, encoders, j + 1)
            },
            Err(_) => first_crtc(d, encoders, j + 1),
        }
    }
}

/// One plane of the scan for a primary plane that can show `crtc`, given
/// what the plane's type lookup gave: a failed read ends the scan with its
/// error; a primary plane whose CRTC list holds `crtc` is the answer;
/// any other plane sends the scan on to `planes[k + 1..]`.
pub open spec fn plane_step<E>(
    d: DeviceModel<E>,
    plane_type: Result<Option<PlaneType>, E>,
    planes: Seq<u32>,
    k: int,
    crtc: u32,
) -> Result<Option<u32>, E>
    decreases planes.len() - k, 0int,
{
    if k < 0 || k >= planes.len() {
        Ok(None)
    } else {
    match plane_type {
        Err(e) => Err(e),
        Ok(t) => if t == Some(PlaneType::Primary) {
            match (d.plane_crtcs)(planes[k]) {
                Err(e) => Err(e),
                Ok(crtcs) => if crtcs.contains(crtc) {
                    Ok(Some(planes[k]))
                } else {
                    primary_plane_for(d, planes, k + 1, crtc)
                },
            }
        } else {
            primary_plane_for(d, planes, k + 1, crtc)
        },
    }
    }
}

/// The first of `planes[k..]` that is a primary plane able to show `crtc`,
/// or the error of the first read that failed on the way.
pub open spec fn primary_plane_for<E>(d: DeviceModel<E>, planes: Seq<u32>, k: int, crtc: u32) -> Result<
    Option<u32>,
    E,
>
    decreases planes.len() - k, 1int,
{
    if k < 0 || k >= planes.len() {
        Ok(None)
    } else {
        plane_step(d, plane_type_on(d, planes[k]), planes, k, crtc)
    }
}

/// A found plane together with the mode its CRTC runs.
pub open spec fn with_mode<E>(r: Result<Option<u32>, E>, current: Option<DisplayMode>) -> Result<
    Option<Selection>,
    E,
> {
    match r {
        Err(e) => Err(e),
        Ok(None) => Ok(None),
        Ok(Some(p)) => Ok(Some(Selection { plane: p, mode: current })),
    }
}

/// The part of a connector once its CRTC's current mode is known: when a
/// mode is needed and the CRTC runs none, nothing; else the device's planes
/// are read and scanned for a primary plane that can show the CRTC.
pub open spec fn plane_stage<E>(
    d: DeviceModel<E>,
    need_mode: bool,
    crtc: u32,
    current: Option<DisplayMode>,
) -> Result<Option<Selection>, E> {
    if need_mode && current is None {
        Ok(None)
    } else {
        match d.planes {
            Err(e) => Err(e),
            Ok(planes) => with_mode(primary_plane_for(d, planes, 0, crtc), current),
        }
    }
}

/// The part of a connector from the read of its CRTC on: a failed read ends
/// the search; else a notice where the current mode is not the preferred one,
/// then the plane stage.
pub open spec fn crtc_stage<E>(
    d: DeviceModel<E>,
    need_mode: bool,
    crtc: u32,
    preferred: Option<DisplayMode>,
) -> Trace<E> {
    match (d.crtc_mode)(crtc) {
        Err(e) => Trace { notices: Seq::empty(), result: Err(e) },
        Ok(current) => Trace {
            notices: mismatch_notice(current, preferred),
            result: plane_stage(d, need_mode, crtc, current),
        },
    }
}

/// The part of a connector from its encoder `encoders[j]` on.
pub open spec fn encoder_stage<E>(
    d: DeviceModel<E>,
    need_mode: bool,
    encoders: Seq<u32>,
    j: int,
    preferred: Option<DisplayMode>,
) -> Trace<E> {
    match first_crtc(d, encoders, j) {
        None => empty_trace(),
        Some(crtc) => crtc_stage(d, need_mode, crtc, preferred),
    }
}

/// The part of one connector: one that cannot be read or is not connected
/// gives nothing; else its encoders are tried, with its preferred mode.
pub open spec fn connector_stage<E>(d: DeviceModel<E>, need_mode: bool, connector: u32) -> Trace<E> {
    match (d.connector)(connector) {
        Err(_) => empty_trace(),
        Ok(info) => if info.state != ConnectionState::Connected {
            empty_trace()
        } else {
            encoder_stage(d, need_mode, info.encoders, 0, preferred_of(info.modes))
        },
    }
}

/// The search over `connectors[i..]`, in order, up to the first connector
/// whose part finds a plane or fails.
pub open spec fn search_from<E>(d: DeviceModel<E>, need_mode: bool, connectors: Seq<u32>, i: int) -> Trace<
    E,
>
    decreases connectors.len() - i,
{
    if i < 0 || i >= connectors.len() {
        empty_trace()
    } else {
        followed_by(
            connector_stage(d, need_mode, connectors[i]),
            search_from(d, need_mode, connectors, i + 1),
        )
    }
}

/// What the search gives on device `d`: a failed read of the resources ends
/// it with that error, else the connectors are searched in resource order.
pub open spec fn selection_on<E>(d: DeviceModel<E>, need_mode: bool) -> Trace<E> {
    match d.connectors {
        Err(e) => Trace { notices: Seq::empty(), result: Err(e) },
        Ok(connectors) => search_from(d, need_mode, connectors, 0),
    }
}

/// The reads a search makes on device `d` from connector `connectors[i]` on,
/// in order: the connector; where it can be read and is connected, its
/// encoders as `encoder_reads` says; else the next connector's reads.
pub open spec fn search_reads<E>(
    d: DeviceModel<E>,
    need_mode: bool,
    connectors: Seq<u32>,
    i: int,
) -> Seq<Request>
    decreases connectors.len() - i, 5int, 0int, 0int,
{
    if i < 0 || i >= connectors.len() {
        Seq::empty()
    } else {
        seq![Request::Connector(connectors[i])] + match (d.connector)(connectors[i]) {
            Ok(info) => if info.state == ConnectionState::Connected {
                encoder_reads(d, need_mode, connectors, i, info.encoders, 0, preferred_of(info.modes))
            } else {
                search_reads(d, need_mode, connectors, i + 1)
            },
            Err(_) => search_reads(d, need_mode, connectors, i + 1),
        }
    }
}

/// The reads from the encoder `encoders[j]` of connector `connectors[i]` on:
/// each encoder in turn until one can drive a CRTC, then that CRTC's reads;
/// when no encoder is left, the next connector's reads.
pub open spec fn encoder_reads<E>(
    d: DeviceModel<E>,
    need_mode: bool,
    connectors: Seq<u32>,
    i: int,
    encoders: Seq<u32>,
    j: int,
    preferred: Option<DisplayMode>,
) -> Seq<Request>
    decreases connectors.len() - i, 4int, encoders.len() - j, 0int,
{
    if i < 0 || i >= connectors.len() {
        Seq::empty()
    } else if j < 0 || j >= encoders.len() {
        search_reads(d, need_mode, connectors, i + 1)
    } else {
        seq![Request::Encoder(encoders[j])] + match (d.encoder_crtcs)(encoders[j]) {
            Ok(crtcs) => if crtcs.len() > 0 {
                crtc_reads(d, need_mode, connectors, i, crtcs[0], preferred)
            } else {
                encoder_reads(d, need_mode, connectors, i, encoders, j + 1, preferred)
            },
            Err(_) => encoder_reads(d, need_mode, connectors, i, encoders, j + 1, preferred),
        }
    }
}

/// The reads from the read of `crtc` on: the CRTC; nothing more when that
/// read fails; else the mismatch notice where the mode is not the preferred
/// one, then the reads of `mode_reads`.
pub open spec fn crtc_reads<E>(
    d: DeviceModel<E>,
    need_mode: bool,
    connectors: Seq<u32>,
    i: int,
    crtc: u32,
    preferred: Option<DisplayMode>,
) -> Seq<Request>
    decreases connectors.len() - i, 3int, 0int, 0int,
{
    if i < 0 || i >= connectors.len() {
        Seq::empty()
    } else {
        seq![Request::Crtc(crtc)] + match (d.crtc_mode)(crtc) {
            Err(_) => Seq::empty(),
            Ok(current) => if same_optional_mode(current, preferred) {
                mode_reads(d, need_mode, connectors, i, crtc, current)
            } else {
                seq![Request::ReportModeMismatch { current, preferred }] + mode_reads(
                    d,
                    need_mode,
                    connectors,
                    i,
                    crtc,
                    current,
                )
            },
        }
    }
}

/// The reads once the CRTC's current mode is known: when a mode is needed
/// and the CRTC runs none, the next connector's reads; else the plane
/// handles and, where they can be read, the planes as `plane_reads` says.
pub open spec fn mode_reads<E>(
    d: DeviceModel<E>,
    need_mode: bool,
    connectors: Seq<u32>,
    i: int,
    crtc: u32,
    current: Option<DisplayMode>,
) -> Seq<Request>
    decreases connectors.len() - i, 2int, 0int, 0int,
{
    if i < 0 || i >= connectors.len() {
        Seq::empty()
    } else if need_mode && current is None {
        search_reads(d, need_mode, connectors, i + 1)
    } else {
        seq![Request::PlaneHandles] + match d.planes {
            Err(_) => Seq::empty(),
            Ok(planes) => plane_reads(d, need_mode, connectors, i, crtc, planes, 0),
        }
    }
}

/// The reads from the plane `planes[k]` on: its type lookup, then what
/// `typed_plane_reads` says; when no plane is left, the next connector's reads.
pub open spec fn plane_reads<E>(
    d: DeviceModel<E>,
    need_mode: bool,
    connectors: Seq<u32>,
    i: int,
    crtc: u32,
    planes: Seq<u32>,
    k: int,
) -> Seq<Request>
    decreases connectors.len() - i, 1int, planes.len() - k, 1int,
{
    if i < 0 || i >= connectors.len() {
        Seq::empty()
    } else if k < 0 || k >= planes.len() {
        search_reads(d, need_mode, connectors, i + 1)
    } else {
        plane_type_reads(d, planes[k]) + typed_plane_reads(
            d,
            need_mode,
            connectors,
            i,
            crtc,
            planes,
            k,
            plane_type_on(d, planes[k]),
        )
    }
}

/// The reads after the type lookup of `planes[k]` gave `plane_type`: none
/// after a failed lookup; for a primary plane, its CRTC list, then nothing
/// more when that read fails or holds `crtc`; else the next plane's reads.
pub open spec fn typed_plane_reads<E>(
    d: DeviceModel<E>,
    need_mode: bool,
    connectors: Seq<u32>,
    i: int,
    crtc: u32,
    planes: Seq<u32>,
    k: int,
    plane_type: Result<Option<PlaneType>, E>,
) -> Seq<Request>
    decreases connectors.len() - i, 1int, planes.len() - k, 0int,
{
    if i < 0 || i >= connectors.len() || k < 0 || k >= planes.len() {
        Seq::empty()
    } else {
        match plane_type {
            Err(_) => Seq::empty(),
            Ok(t) => if t == Some(PlaneType::Primary) {
                seq![Request::Plane(planes[k])] + match (d.plane_crtcs)(planes[k]) {
                    Err(_) => Seq::empty(),
                    Ok(crtcs) => if crtcs.contains(crtc) {
                        Seq::empty()
                    } else {
                        plane_reads(d, need_mode, connectors, i, crtc, planes, k + 1)
                    },
                }
            } else {
                plane_reads(d, need_mode, connectors, i, crtc, planes, k + 1)
            },
        }
    }
}

/// The reads a search makes on device `d`, in order: the resources, then,
/// where they can be read, the connectors as `search_reads` says. A search
/// makes no read after the one that decides its result: none after the
/// plane it finds, and none after a failed read that ends it.
pub open spec fn selection_reads<E>(d: DeviceModel<E>, need_mode: bool) -> Seq<Request> {
    seq![Request::Resources] + match d.connectors {
        Err(_) => Seq::empty(),
        Ok(connectors) => search_reads(d, need_mode, connectors, 0),
    }
}

/// How `sel` came about on `d`: connector `connectors[i]` is connected,
/// `crtc` is the first CRTC its encoders can drive, `sel.mode` is the mode the
/// CRTC runs (present where a mode is needed), and `sel.plane` is one of the
/// device's planes, a primary plane that can show the CRTC.
pub open spec fn chosen_via<E>(
    d: DeviceModel<E>,
    need_mode: bool,
    sel: Selection,
    i: int,
    crtc: u32,
) -> bool {
    &&& match d.connectors {
        Ok(cs) => 0 <= i < cs.len() && match (d.connector)(cs[i]) {
            Ok(info) => info.state == ConnectionState::Connected && first_crtc(
                d,
                info.encoders,
                0,
            ) == Some(crtc),
            Err(_) => false,
        },
        Err(_) => false,
    }
    &&& (d.crtc_mode)(crtc) == Ok::<Option<DisplayMode>, E>(sel.mode)
    &&& need_mode ==> sel.mode is Some
    &&& match d.planes {
        Ok(ps) => ps.contains(sel.plane),
        Err(_) => false,
    }
    &&& plane_type_on(d, sel.plane) == Ok::<Option<PlaneType>, E>(Some(PlaneType::Primary))
    &&& match (d.plane_crtcs)(sel.plane) {
        Ok(crtcs) => crtcs.contains(crtc),
        Err(_) => false,
    }
}

proof fn lemma_primary_plane_sound<E>(d: DeviceModel<E>, planes: Seq<u32>, k: int, crtc: u32)
    requires
        0 <= k,
    ensures
        primary_plane_for(d, planes, k, crtc) matches Ok(Some(p)) ==> {
            &&& planes.contains(p)
            &&& plane_type_on(d, p) == Ok::<Option<PlaneType>, E>(Some(PlaneType::Primary))
            &&& match (d.plane_crtcs)(p) {
                Ok(crtcs) => crtcs.contains(crtc),
                Err(_) => false,
            }
        },
    decreases planes.len() - k,
{
    if k < planes.len() {
        lemma_primary_plane_sound(d, planes, k + 1, crtc);
        if primary_plane_for(d, planes, k, crtc) == Ok::<Option<u32>, E>(Some(planes[k])) {
            assert(planes.contains(planes[k]));
        }
    }
}

proof fn lemma_search_sound<E>(d: DeviceModel<E>, need_mode: bool, connectors: Seq<u32>, i: int)
    requires
        0 <= i,
        d.connectors == Ok::<Seq<u32>, E>(connectors),
    ensures
        search_from(d, need_mode, connectors, i).result matches Ok(Some(sel)) ==> exists|
            j: int,
            crtc: u32,
        | #[trigger] chosen_via(d, need_mode, sel, j, crtc),
        forall|n: int|
            0 <= n < search_from(d, need_mode, connectors, i).notices.len() ==> !same_optional_mode(
                #[trigger] search_from(d, need_mode, connectors, i).notices[n].0,
                search_from(d, need_mode, connectors, i).notices[n].1,
            ),
    decreases connectors.len() - i,
{
    if i < connectors.len() {
        lemma_search_sound(d, need_mode, connectors, i + 1);
        let part = connector_stage(d, need_mode, connectors[i]);
        let rest = search_from(d, need_mode, connectors, i + 1);
        if let Ok(info) = (d.connector)(connectors[i]) {
            if info.state == ConnectionState::Connected {
                if let Some(crtc) = first_crtc(d, info.encoders, 0) {
                    if let Ok(current) = (d.crtc_mode)(crtc) {
                        if let Ok(planes) = d.planes {
                            lemma_primary_plane_sound(d, planes, 0, crtc);
                        }
                        if let Ok(Some(sel)) = part.result {
                            assert(chosen_via(d, need_mode, sel, i, crtc));
                        }
                    }
                }
            }
        }
        if part.result == Ok::<Option<Selection>, E>(None) {
            let all = part.notices + rest.notices;
            assert forall|n: int| 0 <= n < all.len() implies !same_optional_mode(
                #[trigger] all[n].0,
                all[n].1,
            ) by {
                if n >= part.notices.len() {
                    assert(all[n] == rest.notices[n - part.notices.len()]);
                }
            }
        }
    }
}

/// What a search finds is sound: the selection came about as `chosen_via`
/// says, and every notice it hands over is of a CRTC whose current mode is
/// not the preferred one.
pub proof fn selection_is_sound<E>(d: DeviceModel<E>, need_mode: bool)
    ensures
        selection_on(d, need_mode).result matches Ok(Some(sel)) ==> exists|i: int, crtc: u32|
            #[trigger] chosen_via(d, need_mode, sel, i, crtc),
        forall|n: int|
            0 <= n < selection_on(d, need_mode).notices.len() ==> !same_optional_mode(
                #[trigger] selection_on(d, need_mode).notices[n].0,
                selection_on(d, need_mode).notices[n].1,
            ),
{
    if let Ok(connectors) = d.connectors {
        lemma_search_sound(d, need_mode, connectors, 0);
    }
}


/// Whether a search's reads end at what decides its result `r`: a plane
/// found ends them with the read of that plane's CRTC list; a failure ends
/// them with the failed read.
pub open spec fn search_ends_at<E>(
    d: DeviceModel<E>,
    reads: Seq<Request>,
    r: Result<Option<Selection>, E>,
) -> bool {
    match r {
        Ok(Some(sel)) => reads.len() > 0 && reads.last() == Request::Plane(sel.plane),
        Err(e) => reads.len() > 0 && fails_with(d, reads.last(), e),
        Ok(None) => true,
    }
}

proof fn lemma_ends_after<E>(
    d: DeviceModel<E>,
    first: Seq<Request>,
    tail: Seq<Request>,
    r: Result<Option<Selection>, E>,
)
    requires
        search_ends_at(d, tail, r),
        tail.len() == 0 ==> search_ends_at(d, first, r),
    ensures
        search_ends_at(d, first + tail, r),
{
    if tail.len() == 0 {
        assert(first + tail =~= first);
    } else {
        assert((first + tail).last() == tail.last());
    }
}

proof fn lemma_search_reads_end<E>(d: DeviceModel<E>, need_mode: bool, connectors: Seq<u32>, i: int)
    requires
        0 <= i,
    ensures
        search_ends_at(
            d,
            search_reads(d, need_mode, connectors, i),
            search_from(d, need_mode, connectors, i).result,
        ),
    decreases connectors.len() - i, 5int, 0int, 0int,
{
    if i < connectors.len() {
        let first = seq![Request::Connector(connectors[i])];
        let r = search_from(d, need_mode, connectors, i).result;
        match (d.connector)(connectors[i]) {
            Ok(info) => if info.state == ConnectionState::Connected {
                lemma_encoder_reads_end(
                    d,
                    need_mode,
                    connectors,
                    i,
                    info.encoders,
                    0,
                    preferred_of(info.modes),
                );
                lemma_ends_after(
                    d,
                    first,
                    encoder_reads(
                        d,
                        need_mode,
                        connectors,
                        i,
                        info.encoders,
                        0,
                        preferred_of(info.modes),
                    ),
                    r,
                );
            } else {
                lemma_search_reads_end(d, need_mode, connectors, i + 1);
                lemma_ends_after(d, first, search_reads(d, need_mode, connectors, i + 1), r);
            },
            Err(_) => {
                lemma_search_reads_end(d, need_mode, connectors, i + 1);
                lemma_ends_after(d, first, search_reads(d, need_mode, connectors, i + 1), r);
            },
        }
    }
}

proof fn lemma_encoder_reads_end<E>(
    d: DeviceModel<E>,
    need_mode: bool,
    connectors: Seq<u32>,
    i: int,
    encoders: Seq<u32>,
    j: int,
    preferred: Option<DisplayMode>,
)
    requires
        0 <= i < connectors.len(),
        0 <= j,
    ensures
        search_ends_at(
            d,
            encoder_reads(d, need_mode, connectors, i, encoders, j, preferred),
            followed_by(
                encoder_stage(d, need_mode, encoders, j, preferred),
                search_from(d, need_mode, connectors, i + 1),
            ).result,
        ),
    decreases connectors.len() - i, 4int, encoders.len() - j, 0int,
{
    let r = followed_by(
        encoder_stage(d, need_mode, encoders, j, preferred),
        search_from(d, need_mode, connectors, i + 1),
    ).result;
    if j >= encoders.len() {
        lemma_search_reads_end(d, need_mode, connectors, i + 1);
    } else {
        let first = seq![Request::Encoder(encoders[j])];
        match (d.encoder_crtcs)(encoders[j]) {
            Ok(crtcs) => if crtcs.len() > 0 {
                lemma_crtc_reads_end(d, need_mode, connectors, i, crtcs[0], preferred);
                lemma_ends_after(
                    d,
                    first,
                    crtc_reads(d, need_mode, connectors, i, crtcs[0], preferred),
                    r,
                );
            } else {
                lemma_encoder_reads_end(d, need_mode, connectors, i, encoders, j + 1, preferred);
                lemma_ends_after(
                    d,
                    first,
                    encoder_reads(d, need_mode, connectors, i, encoders, j + 1, preferred),
                    r,
                );
            },
            Err(_) => {
                lemma_encoder_reads_end(d, need_mode, connectors, i, encoders, j + 1, preferred);
                lemma_ends_after(
                    d,
                    first,
                    encoder_reads(d, need_mode, connectors, i, encoders, j + 1, preferred),
                    r,
                );
            },
        }
    }
}

proof fn lemma_crtc_reads_end<E>(
    d: DeviceModel<E>,
    need_mode: bool,
    connectors: Seq<u32>,
    i: int,
    crtc: u32,
    preferred: Option<DisplayMode>,
)
    requires
        0 <= i < connectors.len(),
    ensures
        search_ends_at(
            d,
            crtc_reads(d, need_mode, connectors, i, crtc, preferred),
            followed_by(
                crtc_stage(d, need_mode, crtc, preferred),
                search_from(d, need_mode, connectors, i + 1),
            ).result,
        ),
    decreases connectors.len() - i, 3int, 0int, 0int,
{
    let first = seq![Request::Crtc(crtc)];
    let r = followed_by(
        crtc_stage(d, need_mode, crtc, preferred),
        search_from(d, need_mode, connectors, i + 1),
    ).result;
    match (d.crtc_mode)(crtc) {
        Err(_) => {
            assert(first + Seq::<Request>::empty() =~= first);
        },
        Ok(current) => {
            lemma_mode_reads_end(d, need_mode, connectors, i, crtc, current);
            let m = mode_reads(d, need_mode, connectors, i, crtc, current);
            if same_optional_mode(current, preferred) {
                lemma_ends_after(d, first, m, r);
            } else {
                let report = seq![Request::ReportModeMismatch { current, preferred }];
                lemma_ends_after(d, report, m, r);
                lemma_ends_after(d, first, report + m, r);
            }
        },
    }
}

proof fn lemma_mode_reads_end<E>(
    d: DeviceModel<E>,
    need_mode: bool,
    connectors: Seq<u32>,
    i: int,
    crtc: u32,
    current: Option<DisplayMode>,
)
    requires
        0 <= i < connectors.len(),
    ensures
        search_ends_at(
            d,
            mode_reads(d, need_mode, connectors, i, crtc, current),
            followed_by(
                Trace {
                    notices: Seq::empty(),
                    result: plane_stage(d, need_mode, crtc, current),
                },
                search_from(d, need_mode, connectors, i + 1),
            ).result,
        ),
    decreases connectors.len() - i, 2int, 0int, 0int,
{
    if need_mode && current is None {
        lemma_search_reads_end(d, need_mode, connectors, i + 1);
    } else {
        let first = seq![Request::PlaneHandles];
        let r = followed_by(
            Trace { notices: Seq::empty(), result: plane_stage(d, need_mode, crtc, current) },
            search_from(d, need_mode, connectors, i + 1),
        ).result;
        match d.planes {
            Err(_) => {
                assert(first + Seq::<Request>::empty() =~= first);
            },
            Ok(planes) => {
                lemma_plane_reads_end(d, need_mode, connectors, i, crtc, planes, 0, current);
                lemma_ends_after(
                    d,
                    first,
                    plane_reads(d, need_mode, connectors, i, crtc, planes, 0),
                    r,
                );
            },
        }
    }
}

proof fn lemma_plane_reads_end<E>(
    d: DeviceModel<E>,
    need_mode: bool,
    connectors: Seq<u32>,
    i: int,
    crtc: u32,
    planes: Seq<u32>,
    k: int,
    current: Option<DisplayMode>,
)
    requires
        0 <= i < connectors.len(),
        0 <= k,
    ensures
        search_ends_at(
            d,
            plane_reads(d, need_mode, connectors, i, crtc, planes, k),
            followed_by(
                Trace {
                    notices: Seq::empty(),
                    result: with_mode(primary_plane_for(d, planes, k, crtc), current),
                },
                search_from(d, need_mode, connectors, i + 1),
            ).result,
        ),
    decreases connectors.len() - i, 1int, planes.len() - k, 1int,
{
    if k >= planes.len() {
        lemma_search_reads_end(d, need_mode, connectors, i + 1);
    } else {
        let t = plane_type_on(d, planes[k]);
        let lookup = plane_type_reads(d, planes[k]);
        let typed = typed_plane_reads(d, need_mode, connectors, i, crtc, planes, k, t);
        let r = followed_by(
            Trace {
                notices: Seq::empty(),
                result: with_mode(primary_plane_for(d, planes, k, crtc), current),
            },
            search_from(d, need_mode, connectors, i + 1),
        ).result;
        lookup_reads_end_at_decision(d, planes[k]);
        match t {
            Err(e) => {
                assert(typed =~= Seq::<Request>::empty());
                assert(lookup + typed =~= lookup);
                assert(lookup_ends_at(d, lookup, t));
            },
            Ok(_) => {
                lemma_typed_plane_reads_end(d, need_mode, connectors, i, crtc, planes, k, t, current);
                if typed.len() == 0 {
                    assert(r == Ok::<Option<Selection>, E>(None));
                }
                lemma_ends_after(d, lookup, typed, r);
            },
        }
    }
}

proof fn lemma_typed_plane_reads_end<E>(
    d: DeviceModel<E>,
    need_mode: bool,
    connectors: Seq<u32>,
    i: int,
    crtc: u32,
    planes: Seq<u32>,
    k: int,
    plane_type: Result<Option<PlaneType>, E>,
    current: Option<DisplayMode>,
)
    requires
        0 <= i < connectors.len(),
        0 <= k < planes.len(),
        plane_type is Ok,
    ensures
        search_ends_at(
            d,
            typed_plane_reads(d, need_mode, connectors, i, crtc, planes, k, plane_type),
            followed_by(
                Trace {
                    notices: Seq::empty(),
                    result: with_mode(plane_step(d, plane_type, planes, k, crtc), current),
                },
                search_from(d, need_mode, connectors, i + 1),
            ).result,
        ),
    decreases connectors.len() - i, 1int, planes.len() - k, 0int,
{
    let r = followed_by(
        Trace {
            notices: Seq::empty(),
            result: with_mode(plane_step(d, plane_type, planes, k, crtc), current),
        },
        search_from(d, need_mode, connectors, i + 1),
    ).result;
    if plane_type == Ok::<Option<PlaneType>, E>(Some(PlaneType::Primary)) {
        let first = seq![Request::Plane(planes[k])];
        match (d.plane_crtcs)(planes[k]) {
            Err(_) => {
                assert(first + Seq::<Request>::empty() =~= first);
            },
            Ok(crtcs) => if crtcs.contains(crtc) {
                assert(first + Seq::<Request>::empty() =~= first);
            } else {
                lemma_plane_reads_end(d, need_mode, connectors, i, crtc, planes, k + 1, current);
                lemma_ends_after(
                    d,
                    first,
                    plane_reads(d, need_mode, connectors, i, crtc, planes, k + 1),
                    r,
                );
            },
        }
    } else {
        lemma_plane_reads_end(d, need_mode, connectors, i, crtc, planes, k + 1, current);
    }
}

/// A search's reads end at what decides its result: no connector, encoder
/// or plane is read after the plane it finds, and nothing is read after a
/// failed read that ends it.
pub proof fn reads_end_at_decision<E>(d: DeviceModel<E>, need_mode: bool)
    ensures
        search_ends_at(d, selection_reads(d, need_mode), selection_on(d, need_mode).result),
{
    let first = seq![Request::Resources];
    match d.connectors {
        Err(_) => {
            assert(first + Seq::<Request>::empty() =~= first);
        },
        Ok(connectors) => {
            lemma_search_reads_end(d, need_mode, connectors, 0);
            lemma_ends_after(
                d,
                first,
                search_reads(d, need_mode, connectors, 0),
                selection_on(d, need_mode).result,
            );
        },
    }
}


/// Whether the CRTC that connector `connector` would be shown on, if it is
/// connected and one of its encoders can drive a CRTC, runs a mode whenever
/// its read succeeds.
pub open spec fn chosen_crtc_runs_mode<E>(d: DeviceModel<E>, connector: u32) -> bool {
    match (d.connector)(connector) {
        Err(_) => true,
        Ok(info) => info.state == ConnectionState::Connected ==> match first_crtc(
            d,
            info.encoders,
            0,
        ) {
            None => true,
            Some(crtc) => (d.crtc_mode)(crtc) != Ok::<Option<DisplayMode>, E>(None),
        },
    }
}

/// Whether every connector's chosen CRTC runs a mode, as `chosen_crtc_runs_mode` says.
pub open spec fn chosen_crtcs_run_modes<E>(d: DeviceModel<E>) -> bool {
    match d.connectors {
        Err(_) => true,
        Ok(connectors) => forall|i: int|
            0 <= i < connectors.len() ==> #[trigger] chosen_crtc_runs_mode(d, connectors[i]),
    }
}

proof fn lemma_search_needs_no_mode<E>(d: DeviceModel<E>, connectors: Seq<u32>, i: int)
    requires
        0 <= i,
        forall|j: int|
            0 <= j < connectors.len() ==> #[trigger] chosen_crtc_runs_mode(d, connectors[j]),
    ensures
        search_from(d, true, connectors, i) == search_from(d, false, connectors, i),
    decreases connectors.len() - i,
{
    if i < connectors.len() {
        lemma_search_needs_no_mode(d, connectors, i + 1);
        assert(chosen_crtc_runs_mode(d, connectors[i]));
        assert(connector_stage(d, true, connectors[i]) == connector_stage(d, false, connectors[i]));
    }
}

proof fn lemma_search_reads_need_no_mode<E>(d: DeviceModel<E>, connectors: Seq<u32>, i: int)
    requires
        0 <= i,
        forall|j: int|
            0 <= j < connectors.len() ==> #[trigger] chosen_crtc_runs_mode(d, connectors[j]),
    ensures
        search_reads(d, true, connectors, i) == search_reads(d, false, connectors, i),
    decreases connectors.len() - i, 5int, 0int, 0int,
{
    if i < connectors.len() {
        assert(chosen_crtc_runs_mode(d, connectors[i]));
        lemma_search_reads_need_no_mode(d, connectors, i + 1);
        if let Ok(info) = (d.connector)(connectors[i]) {
            if info.state == ConnectionState::Connected {
                lemma_encoder_reads_need_no_mode(
                    d,
                    connectors,
                    i,
                    info.encoders,
                    0,
                    preferred_of(info.modes),
                );
            }
        }
    }
}

proof fn lemma_encoder_reads_need_no_mode<E>(
    d: DeviceModel<E>,
    connectors: Seq<u32>,
    i: int,
    encoders: Seq<u32>,
    j: int,
    preferred: Option<DisplayMode>,
)
    requires
        0 <= i < connectors.len(),
        0 <= j,
        forall|k: int|
            0 <= k < connectors.len() ==> #[trigger] chosen_crtc_runs_mode(d, connectors[k]),
        first_crtc(d, encoders, j) matches Some(crtc) ==> (d.crtc_mode)(crtc) != Ok::<
            Option<DisplayMode>,
            E,
        >(None),
    ensures
        encoder_reads(d, true, connectors, i, encoders, j, preferred) == encoder_reads(
            d,
            false,
            connectors,
            i,
            encoders,
            j,
            preferred,
        ),
    decreases connectors.len() - i, 4int, encoders.len() - j, 0int,
{
    if j >= encoders.len() {
        lemma_search_reads_need_no_mode(d, connectors, i + 1);
    } else {
        match (d.encoder_crtcs)(encoders[j]) {
            Ok(crtcs) => if crtcs.len() > 0 {
                lemma_crtc_reads_need_no_mode(d, connectors, i, crtcs[0], preferred);
            } else {
                lemma_encoder_reads_need_no_mode(d, connectors, i, encoders, j + 1, preferred);
            },
            Err(_) => {
                lemma_encoder_reads_need_no_mode(d, connectors, i, encoders, j + 1, preferred);
            },
        }
    }
}

proof fn lemma_crtc_reads_need_no_mode<E>(
    d: DeviceModel<E>,
    connectors: Seq<u32>,
    i: int,
    crtc: u32,
    preferred: Option<DisplayMode>,
)
    requires
        0 <= i < connectors.len(),
        forall|k: int|
            0 <= k < connectors.len() ==> #[trigger] chosen_crtc_runs_mode(d, connectors[k]),
        (d.crtc_mode)(crtc) != Ok::<Option<DisplayMode>, E>(None),
    ensures
        crtc_reads(d, true, connectors, i, crtc, preferred) == crtc_reads(
            d,
            false,
            connectors,
            i,
            crtc,
            preferred,
        ),
    decreases connectors.len() - i, 3int, 0int, 0int,
{
    if let Ok(current) = (d.crtc_mode)(crtc) {
        lemma_mode_reads_need_no_mode(d, connectors, i, crtc, current);
    }
}

proof fn lemma_mode_reads_need_no_mode<E>(
    d: DeviceModel<E>,
    connectors: Seq<u32>,
    i: int,
    crtc: u32,
    current: Option<DisplayMode>,
)
    requires
        0 <= i < connectors.len(),
        forall|k: int|
            0 <= k < connectors.len() ==> #[trigger] chosen_crtc_runs_mode(d, connectors[k]),
        current is Some,
    ensures
        mode_reads(d, true, connectors, i, crtc, current) == mode_reads(
            d,
            false,
            connectors,
            i,
            crtc,
            current,
        ),
    decreases connectors.len() - i, 2int, 0int, 0int,
{
    if let Ok(planes) = d.planes {
        lemma_plane_reads_need_no_mode(d, connectors, i, crtc, planes, 0);
    }
}

proof fn lemma_plane_reads_need_no_mode<E>(
    d: DeviceModel<E>,
    connectors: Seq<u32>,
    i: int,
    crtc: u32,
    planes: Seq<u32>,
    k: int,
)
    requires
        0 <= i < connectors.len(),
        0 <= k,
        forall|j: int|
            0 <= j < connectors.len() ==> #[trigger] chosen_crtc_runs_mode(d, connectors[j]),
    ensures
        plane_reads(d, true, connectors, i, crtc, planes, k) == plane_reads(
            d,
            false,
            connectors,
            i,
            crtc,
            planes,
            k,
        ),
    decreases connectors.len() - i, 1int, planes.len() - k, 1int,
{
    if k >= planes.len() {
        lemma_search_reads_need_no_mode(d, connectors, i + 1);
    } else {
        lemma_typed_plane_reads_need_no_mode(
            d,
            connectors,
            i,
            crtc,
            planes,
            k,
            plane_type_on(d, planes[k]),
        );
    }
}

proof fn lemma_typed_plane_reads_need_no_mode<E>(
    d: DeviceModel<E>,
    connectors: Seq<u32>,
    i: int,
    crtc: u32,
    planes: Seq<u32>,
    k: int,
    plane_type: Result<Option<PlaneType>, E>,
)
    requires
        0 <= i < connectors.len(),
        0 <= k < planes.len(),
        forall|j: int|
            0 <= j < connectors.len() ==> #[trigger] chosen_crtc_runs_mode(d, connectors[j]),
    ensures
        typed_plane_reads(d, true, connectors, i, crtc, planes, k, plane_type)
            == typed_plane_reads(d, false, connectors, i, crtc, planes, k, plane_type),
    decreases connectors.len() - i, 1int, planes.len() - k, 0int,
{
    lemma_plane_reads_need_no_mode(d, connectors, i, crtc, planes, k + 1);
}

/// Where every connector's chosen CRTC runs a mode, passing over connectors
/// whose CRTC runs none changes nothing: the search that needs a mode and
/// the one that does not give the same notices and the same result, so the
/// same plane, mode or error, after the same reads.
pub proof fn needing_a_mode_changes_nothing<E>(d: DeviceModel<E>)
    requires
        chosen_crtcs_run_modes(d),
    ensures
        selection_on(d, true) == selection_on(d, false),
        selection_reads(d, true) == selection_reads(d, false),
{
    if let Ok(connectors) = d.connectors {
        lemma_search_needs_no_mode(d, connectors, 0);
        lemma_search_reads_need_no_mode(d, connectors, 0);
    }
}


/// A connector that cannot be read or is not connected is passed over: the
/// search from it gives what the search from the next connector gives, after
/// reading just that connector.
pub proof fn unusable_connector_is_passed_over<E>(
    d: DeviceModel<E>,
    need_mode: bool,
    connectors: Seq<u32>,
    i: int,
)
    requires
        0 <= i < connectors.len(),
        match (d.connector)(connectors[i]) {
            Err(_) => true,
            Ok(info) => info.state != ConnectionState::Connected,
        },
    ensures
        search_from(d, need_mode, connectors, i) == search_from(d, need_mode, connectors, i + 1),
        search_reads(d, need_mode, connectors, i) == seq![Request::Connector(connectors[i])]
            + search_reads(d, need_mode, connectors, i + 1),
{
}

/// At the CRTC a connector is shown on, the search hands over a notice
/// exactly when the mode the CRTC runs is not the connector's preferred
/// mode (as values, every field compared), and the notice is that pair.
pub proof fn notice_exactly_when_modes_differ<E>(
    d: DeviceModel<E>,
    need_mode: bool,
    connectors: Seq<u32>,
    i: int,
    crtc: u32,
    current: Option<DisplayMode>,
    preferred: Option<DisplayMode>,
)
    requires
        0 <= i < connectors.len(),
        (d.crtc_mode)(crtc) == Ok::<Option<DisplayMode>, E>(current),
    ensures
        current == preferred ==> crtc_stage(d, need_mode, crtc, preferred).notices.len() == 0,
        current != preferred ==> crtc_stage(d, need_mode, crtc, preferred).notices == seq![
            (current, preferred),
        ],
        crtc_reads(d, need_mode, connectors, i, crtc, preferred) == seq![Request::Crtc(crtc)] + (
        if current == preferred {
            Seq::empty()
        } else {
            seq![Request::ReportModeMismatch { current, preferred }]
        }) + mode_reads(d, need_mode, connectors, i, crtc, current),
{
    same_optional_is_equality(current, preferred);
    let m = mode_reads(d, need_mode, connectors, i, crtc, current);
    let first = seq![Request::Crtc(crtc)];
    if current == preferred {
        assert(first + Seq::<Request>::empty() + m =~= first + m);
    } else {
        let report = seq![Request::ReportModeMismatch { current, preferred }];
        assert(first + report + m =~= first + (report + m));
    }
}

/// Whether every read of device `d` succeeds.
pub open spec fn every_read_succeeds<E>(d: DeviceModel<E>) -> bool {
    &&& d.connectors is Ok
    &&& d.planes is Ok
    &&& forall|h: u32| #[trigger] (d.connector)(h) is Ok
    &&& forall|h: u32| #[trigger] (d.encoder_crtcs)(h) is Ok
    &&& forall|h: u32| #[trigger] (d.crtc_mode)(h) is Ok
    &&& forall|h: u32| #[trigger] (d.properties)(h) is Ok
    &&& forall|h: u32| #[trigger] (d.property_name)(h) is Ok
    &&& forall|h: u32| #[trigger] (d.plane_crtcs)(h) is Ok
}

proof fn lemma_type_among_no_error<E>(d: DeviceModel<E>, props: Seq<PropertyValue>, k: int)
    requires
        every_read_succeeds(d),
        0 <= k,
    ensures
        type_among(d, props, k) is Ok,
    decreases props.len() - k,
{
    if k < props.len() {
        assert((d.property_name)(props[k].handle) is Ok);
        lemma_type_among_no_error(d, props, k + 1);
    }
}

proof fn lemma_plane_type_no_error<E>(d: DeviceModel<E>, plane: u32)
    requires
        every_read_succeeds(d),
    ensures
        plane_type_on(d, plane) is Ok,
{
    assert((d.properties)(plane) is Ok);
    if let Ok(props) = (d.properties)(plane) {
        lemma_type_among_no_error(d, props, 0);
    }
}

proof fn lemma_primary_plane_no_error<E>(d: DeviceModel<E>, planes: Seq<u32>, k: int, crtc: u32)
    requires
        every_read_succeeds(d),
        0 <= k,
    ensures
        primary_plane_for(d, planes, k, crtc) is Ok,
        (exists|m: int|
            k <= m < planes.len() && #[trigger] usable_plane(d, planes[m], crtc)) ==> primary_plane_for(
            d,
            planes,
            k,
            crtc,
        ) is Ok && primary_plane_for(d, planes, k, crtc)->Ok_0 is Some,
    decreases planes.len() - k,
{
    if k < planes.len() {
        lemma_plane_type_no_error(d, planes[k]);
        assert((d.plane_crtcs)(planes[k]) is Ok);
        lemma_primary_plane_no_error(d, planes, k + 1, crtc);
        if exists|m: int| k <= m < planes.len() && #[trigger] usable_plane(d, planes[m], crtc) {
            let m = choose|m: int| k <= m < planes.len() && #[trigger] usable_plane(d, planes[m], crtc);
            if m > k {
                assert(usable_plane(d, planes[m], crtc));
            }
        }
    }
}

/// Whether `plane` is a primary plane that can show `crtc` on `d`.
pub open spec fn usable_plane<E>(d: DeviceModel<E>, plane: u32, crtc: u32) -> bool {
    &&& plane_type_on(d, plane) == Ok::<Option<PlaneType>, E>(Some(PlaneType::Primary))
    &&& match (d.plane_crtcs)(plane) {
        Ok(crtcs) => crtcs.contains(crtc),
        Err(_) => false,
    }
}

proof fn lemma_part_no_error<E>(d: DeviceModel<E>, need_mode: bool, connector: u32)
    requires
        every_read_succeeds(d),
    ensures
        !(connector_stage(d, need_mode, connector).result is Err),
{
    assert((d.connector)(connector) is Ok);
    if let Ok(info) = (d.connector)(connector) {
        if let Some(crtc) = first_crtc(d, info.encoders, 0) {
            assert((d.crtc_mode)(crtc) is Ok);
            if let Ok(planes) = d.planes {
                lemma_primary_plane_no_error(d, planes, 0, crtc);
            }
        }
    }
}

proof fn lemma_search_finds<E>(d: DeviceModel<E>, need_mode: bool, connectors: Seq<u32>, j: int, i: int)
    requires
        every_read_succeeds(d),
        0 <= j <= i < connectors.len(),
        connector_stage(d, need_mode, connectors[i]).result matches Ok(Some(_)),
    ensures
        search_from(d, need_mode, connectors, j).result matches Ok(Some(_)),
    decreases i - j,
{
    if j < i {
        lemma_search_finds(d, need_mode, connectors, j + 1, i);
        lemma_part_no_error(d, need_mode, connectors[j]);
    }
}

/// The search does not miss an output: when every read succeeds and some
/// connector is connected, the first CRTC its encoders can drive runs a
/// mode, and one of the device's planes is a primary plane that can show
/// that CRTC, the search finds a plane.
pub proof fn search_finds_an_available_output<E>(
    d: DeviceModel<E>,
    need_mode: bool,
    connectors: Seq<u32>,
    i: int,
    info: ConnectorModel,
    crtc: u32,
    mode: DisplayMode,
    planes: Seq<u32>,
    plane: u32,
)
    requires
        every_read_succeeds(d),
        d.connectors == Ok::<Seq<u32>, E>(connectors),
        0 <= i < connectors.len(),
        (d.connector)(connectors[i]) == Ok::<ConnectorModel, E>(info),
        info.state == ConnectionState::Connected,
        first_crtc(d, info.encoders, 0) == Some(crtc),
        (d.crtc_mode)(crtc) == Ok::<Option<DisplayMode>, E>(Some(mode)),
        d.planes == Ok::<Seq<u32>, E>(planes),
        planes.contains(plane),
        usable_plane(d, plane, crtc),
    ensures
        selection_on(d, need_mode).result matches Ok(Some(_)),
{
    let m = choose|m: int| 0 <= m < planes.len() && planes[m] == plane;
    assert(usable_plane(d, planes[m], crtc));
    lemma_primary_plane_no_error(d, planes, 0, crtc);
    lemma_search_finds(d, need_mode, connectors, 0, i);
}


/// Whether encoder `e` can be read on `d` and drives at least one CRTC.
pub open spec fn drives_a_crtc<E>(d: DeviceModel<E>, e: u32) -> bool {
    match (d.encoder_crtcs)(e) {
        Ok(crtcs) => crtcs.len() > 0,
        Err(_) => false,
    }
}

/// The CRTC chosen for a connector is the first CRTC listed by the first of
/// its encoders (from `j` on) that can be read and drives one; there is none
/// exactly when no such encoder exists.
pub proof fn chosen_crtc_is_first_drivable<E>(d: DeviceModel<E>, encoders: Seq<u32>, j: int)
    requires
        0 <= j,
    ensures
        first_crtc(d, encoders, j) is None <==> forall|m: int|
            j <= m < encoders.len() ==> !#[trigger] drives_a_crtc(d, encoders[m]),
        first_crtc(d, encoders, j) matches Some(crtc) ==> exists|m: int|
            j <= m < encoders.len() && #[trigger] drives_a_crtc(d, encoders[m]) && (d.encoder_crtcs)(
                encoders[m],
            )->Ok_0[0] == crtc && forall|n: int|
                j <= n < m ==> !#[trigger] drives_a_crtc(d, encoders[n]),
    decreases encoders.len() - j,
{
    if j < encoders.len() {
        chosen_crtc_is_first_drivable(d, encoders, j + 1);
        if drives_a_crtc(d, encoders[j]) {
            assert(!(forall|m: int|
                j <= m < encoders.len() ==> !#[trigger] drives_a_crtc(d, encoders[m])));
        } else {
            if let Some(crtc) = first_crtc(d, encoders, j + 1) {
                let m = choose|m: int|
                    j + 1 <= m < encoders.len() && #[trigger] drives_a_crtc(d, encoders[m]) && (
                    d.encoder_crtcs)(encoders[m])->Ok_0[0] == crtc && forall|n: int|
                        j + 1 <= n < m ==> !#[trigger] drives_a_crtc(d, encoders[n]);
                assert(forall|n: int| j <= n < m ==> !#[trigger] drives_a_crtc(d, encoders[n]));
            }
        }
    }
}

/// The plane found from `planes[k]` on is the first usable one there: the
/// scan gives `Ok(Some(p))` only for `p = planes[m]` with `usable_plane`,
/// where no plane between `k` and `m` is usable.
pub proof fn found_plane_is_first_usable<E>(d: DeviceModel<E>, planes: Seq<u32>, k: int, crtc: u32)
    requires
        0 <= k,
    ensures
        primary_plane_for(d, planes, k, crtc) matches Ok(Some(p)) ==> exists|m: int|
            k <= m < planes.len() && planes[m] == p && #[trigger] usable_plane(d, planes[m], crtc)
                && forall|n: int| k <= n < m ==> !#[trigger] usable_plane(d, planes[n], crtc),
    decreases planes.len() - k,
{
    if k < planes.len() {
        found_plane_is_first_usable(d, planes, k + 1, crtc);
        if let Ok(Some(p)) = primary_plane_for(d, planes, k, crtc) {
            if usable_plane(d, planes[k], crtc) {
            } else {
                let m = choose|m: int|
                    k + 1 <= m < planes.len() && planes[m] == p && #[trigger] usable_plane(
                        d,
                        planes[m],
                        crtc,
                    ) && forall|n: int| k + 1 <= n < m ==> !#[trigger] usable_plane(d, planes[n], crtc);
                assert(forall|n: int| k <= n < m ==> !#[trigger] usable_plane(d, planes[n], crtc));
            }
        }
    }
}

} // verus!
