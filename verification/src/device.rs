use vstd::prelude::*;

use crate::mode::DisplayMode;

verus! {

/// Whether a connector has a display attached (`drm::control::connector::State`).
#[derive(Clone, Copy, Debug, PartialEq, Eq, Structural)]
pub enum ConnectionState {
    Connected,
    Disconnected,
    Unknown,
}

/// A property of a DRM object and its raw value.
#[derive(Clone, Copy, Debug)]
pub struct PropertyValue {
    pub handle: u32,
    pub value: u64,
}

/// What the device reports about a connector.
#[derive(Clone, Debug)]
pub struct ConnectorInfo {
    pub state: ConnectionState,
    pub modes: Vec<DisplayMode>,
    pub encoders: Vec<u32>,
}

/// A connector's report, with its lists as sequences.
pub struct ConnectorModel {
    pub state: ConnectionState,
    pub modes: Seq<DisplayMode>,
    pub encoders: Seq<u32>,
}

impl View for ConnectorInfo {
    type V = ConnectorModel;

    open spec fn view(&self) -> ConnectorModel {
        ConnectorModel { state: self.state, modes: self.modes@, encoders: self.encoders@ }
    }
}

/// What a search asks of the one who drives it: a read of the device, or
/// (`ReportModeMismatch`) a notice that the CRTC does not run the connector's
/// preferred mode. Handles are the kernel's object ids.
#[derive(Clone, Copy, Debug)]
pub enum Request {
    /// The connector handles of the device's resources.
    Resources,
    /// The state, modes and encoders of a connector.
    Connector(u32),
    /// The CRTCs, in resource order, that an encoder can drive.
    Encoder(u32),
    /// The mode a CRTC currently runs, if any.
    Crtc(u32),
    ReportModeMismatch { current: Option<DisplayMode>, preferred: Option<DisplayMode> },
    /// The plane handles of the device.
    PlaneHandles,
    /// The properties of a plane, with their raw values.
    Properties(u32),
    /// The name of a property.
    Property(u32),
    /// The CRTCs, in resource order, that a plane can be shown on.
    Plane(u32),
}

/// The answer to a `Request`, carrying the device's error where a read failed.
#[derive(Debug)]
pub enum Reply<E> {
    Resources(Result<Vec<u32>, E>),
    Connector(Result<ConnectorInfo, E>),
    Encoder(Result<Vec<u32>, E>),
    Crtc(Result<Option<DisplayMode>, E>),
    Reported,
    PlaneHandles(Result<Vec<u32>, E>),
    Properties(Result<Vec<PropertyValue>, E>),
    Property(Result<Vec<u8>, E>),
    Plane(Result<Vec<u32>, E>),
}

/// A device as the search sees it: what each read gives.
pub struct DeviceModel<E> {
    pub connectors: Result<Seq<u32>, E>,
    pub connector: spec_fn(u32) -> Result<ConnectorModel, E>,
    pub encoder_crtcs: spec_fn(u32) -> Result<Seq<u32>, E>,
    pub crtc_mode: spec_fn(u32) -> Result<Option<DisplayMode>, E>,
    pub planes: Result<Seq<u32>, E>,
    pub properties: spec_fn(u32) -> Result<Seq<PropertyValue>, E>,
    pub property_name: spec_fn(u32) -> Result<Seq<u8>, E>,
    pub plane_crtcs: spec_fn(u32) -> Result<Seq<u32>, E>,
}

/// Whether `req` is a read that fails with `e` on device `d`, a failure that
/// ends a search or lookup.
pub open spec fn fails_with<E>(d: DeviceModel<E>, req: Request, e: E) -> bool {
    match req {
        Request::Resources => d.connectors == Err::<Seq<u32>, E>(e),
        Request::Crtc(h) => (d.crtc_mode)(h) == Err::<Option<DisplayMode>, E>(e),
        Request::PlaneHandles => d.planes == Err::<Seq<u32>, E>(e),
        Request::Properties(h) => (d.properties)(h) == Err::<Seq<PropertyValue>, E>(e),
        Request::Property(h) => (d.property_name)(h) == Err::<Seq<u8>, E>(e),
        Request::Plane(h) => (d.plane_crtcs)(h) == Err::<Seq<u32>, E>(e),
        _ => false,
    }
}

/// A read result whose vector is taken as a sequence.
pub open spec fn seq_result<T, E>(r: Result<Vec<T>, E>) -> Result<Seq<T>, E> {
    match r {
        Ok(v) => Ok(v@),
        Err(e) => Err(e),
    }
}

/// Whether `reply` is of the kind that `req` asks for.
pub open spec fn fits<E>(req: Request, reply: Reply<E>) -> bool {
    match (req, reply) {
        (Request::Resources, Reply::Resources(_)) => true,
        (Request::Connector(_), Reply::Connector(_)) => true,
        (Request::Encoder(_), Reply::Encoder(_)) => true,
        (Request::Crtc(_), Reply::Crtc(_)) => true,
        (Request::ReportModeMismatch { .. }, Reply::Reported) => true,
        (Request::PlaneHandles, Reply::PlaneHandles(_)) => true,
        (Request::Properties(_), Reply::Properties(_)) => true,
        (Request::Property(_), Reply::Property(_)) => true,
        (Request::Plane(_), Reply::Plane(_)) => true,
        _ => false,
    }
}

/// Whether `reply` is what device `d` answers to `req`.
pub open spec fn answers<E>(d: DeviceModel<E>, req: Request, reply: Reply<E>) -> bool {
    match (req, reply) {
        (Request::Resources, Reply::Resources(r)) => seq_result(r) == d.connectors,
        (Request::Connector(h), Reply::Connector(r)) => match r {
            Ok(info) => (d.connector)(h) == Ok::<ConnectorModel, E>(info@),
            Err(e) => (d.connector)(h) == Err::<ConnectorModel, E>(e),
        },
        (Request::Encoder(h), Reply::Encoder(r)) => seq_result(r) == (d.encoder_crtcs)(h),
        (Request::Crtc(h), Reply::Crtc(r)) => r == (d.crtc_mode)(h),
        (Request::ReportModeMismatch { .. }, Reply::Reported) => true,
        (Request::PlaneHandles, Reply::PlaneHandles(r)) => seq_result(r) == d.planes,
        (Request::Properties(h), Reply::Properties(r)) => seq_result(r) == (d.properties)(h),
        (Request::Property(h), Reply::Property(r)) => seq_result(r) == (d.property_name)(h),
        (Request::Plane(h), Reply::Plane(r)) => seq_result(r) == (d.plane_crtcs)(h),
        _ => false,
    }
}

} // verus!
