use std::collections::HashMap;

use bevy_drm_vk::device::{ConnectionState, ConnectorInfo, PropertyValue, Reply, Request};
use bevy_drm_vk::mode::DisplayMode;
use bevy_drm_vk::search::{OutputSearch, SearchStep};
use bevy_drm_vk::selection::Selection;

fn mode(width: u16, height: u16, refresh: u32, mode_type: u32) -> DisplayMode {
    let mut name = [0u8; 32];
    let text = format!("{}x{}", width, height);
    name[..text.len()].copy_from_slice(text.as_bytes());
    DisplayMode {
        clock: 148500,
        hdisplay: width,
        hsync_start: width + 88,
        hsync_end: width + 132,
        htotal: width + 280,
        hskew: 0,
        vdisplay: height,
        vsync_start: height + 4,
        vsync_end: height + 9,
        vtotal: height + 45,
        vscan: 0,
        vrefresh: refresh,
        flags: 5,
        mode_type,
        name,
    }
}

const PREFERRED: u32 = 8;
const DRIVER: u32 = 64;
const TYPE_PROP: u32 = 900;
const OTHER_PROP: u32 = 901;

/// A device given as tables of what each read answers.
#[derive(Default, Clone)]
struct FakeDevice {
    resources: Option<Vec<u32>>,
    connectors: HashMap<u32, ConnectorInfo>,
    encoders: HashMap<u32, Vec<u32>>,
    crtcs: HashMap<u32, Option<DisplayMode>>,
    planes: Option<Vec<u32>>,
    properties: HashMap<u32, Vec<PropertyValue>>,
    names: HashMap<u32, Vec<u8>>,
    plane_crtcs: HashMap<u32, Vec<u32>>,
}

fn missing<T: Clone>(table: &HashMap<u32, T>, h: u32, what: &str) -> Result<T, String> {
    table.get(&h).cloned().ok_or_else(|| format!("no {} {}", what, h))
}

impl FakeDevice {
    fn answer(&self, req: &Request) -> Reply<String> {
        match *req {
            Request::Resources => {
                Reply::Resources(self.resources.clone().ok_or_else(|| "resources".to_string()))
            }
            Request::Connector(h) => Reply::Connector(missing(&self.connectors, h, "connector")),
            Request::Encoder(h) => Reply::Encoder(missing(&self.encoders, h, "encoder")),
            Request::Crtc(h) => Reply::Crtc(missing(&self.crtcs, h, "crtc")),
            Request::ReportModeMismatch { .. } => Reply::Reported,
            Request::PlaneHandles => {
                Reply::PlaneHandles(self.planes.clone().ok_or_else(|| "planes".to_string()))
            }
            Request::Properties(h) => Reply::Properties(missing(&self.properties, h, "properties")),
            Request::Property(h) => Reply::Property(missing(&self.names, h, "property")),
            Request::Plane(h) => Reply::Plane(missing(&self.plane_crtcs, h, "plane")),
        }
    }

    fn add_plane(&mut self, plane: u32, kind: u64, crtcs: Vec<u32>) {
        self.properties.insert(
            plane,
            vec![
                PropertyValue { handle: OTHER_PROP, value: 77 },
                PropertyValue { handle: TYPE_PROP, value: kind },
            ],
        );
        self.plane_crtcs.insert(plane, crtcs);
    }

    /// One connected connector (10) with encoder 20 driving CRTC 30, which runs `current`.
    fn simple(modes: Vec<DisplayMode>, current: Option<DisplayMode>) -> FakeDevice {
        let mut d = FakeDevice::default();
        d.resources = Some(vec![10]);
        d.connectors.insert(
            10,
            ConnectorInfo { state: ConnectionState::Connected, modes, encoders: vec![20] },
        );
        d.encoders.insert(20, vec![30]);
        d.crtcs.insert(30, current);
        d.planes = Some(vec![40, 41]);
        d.names.insert(TYPE_PROP, b"type".to_vec());
        d.names.insert(OTHER_PROP, b"zpos".to_vec());
        d.add_plane(40, 0, vec![30]);
        d.add_plane(41, 1, vec![30]);
        d
    }
}

struct Run {
    result: Result<Option<Selection>, String>,
    notices: Vec<(Option<DisplayMode>, Option<DisplayMode>)>,
    requests: Vec<Request>,
}

fn drive(d: &FakeDevice, need_mode: bool) -> Run {
    let (mut search, mut req) = OutputSearch::new(need_mode);
    let mut notices = Vec::new();
    let mut requests = Vec::new();
    for _ in 0..1000 {
        requests.push(req);
        if let Request::ReportModeMismatch { current, preferred } = req {
            notices.push((current, preferred));
        }
        match search.resume(d.answer(&req)) {
            SearchStep::Next(s, r) => {
                search = s;
                req = r;
            }
            SearchStep::Done(result) => return Run { result, notices, requests },
        }
    }
    panic!("the search did not finish");
}

fn found(run: &Run) -> (u32, Option<DisplayMode>) {
    match &run.result {
        Ok(Some(sel)) => (sel.plane, sel.mode),
        other => panic!("expected a selection, got {:?}", other),
    }
}

#[test]
fn selects_primary_plane_of_connected_output() {
    let m = mode(1920, 1080, 60, PREFERRED | DRIVER);
    let d = FakeDevice::simple(vec![m], Some(m));
    let run = drive(&d, true);
    let (plane, got) = found(&run);
    assert_eq!(plane, 41);
    assert_eq!(got.unwrap().size(), (1920, 1080));
    assert_eq!(got.unwrap().refresh_rate(), 60);
    assert!(run.notices.is_empty());
}

#[test]
fn reports_mode_other_than_preferred() {
    let preferred = mode(1920, 1080, 60, PREFERRED | DRIVER);
    let other = mode(1280, 720, 60, DRIVER);
    let d = FakeDevice::simple(vec![other, preferred], Some(other));
    let run = drive(&d, true);
    let (plane, got) = found(&run);
    assert_eq!(plane, 41);
    assert_eq!(got.unwrap().size(), (1280, 720));
    assert_eq!(run.notices.len(), 1);
    assert_eq!(run.notices[0].0.unwrap().size(), (1280, 720));
    assert_eq!(run.notices[0].1.unwrap().size(), (1920, 1080));
}

#[test]
fn first_mode_is_preferred_when_none_is_flagged() {
    let first = mode(1280, 720, 60, DRIVER);
    let second = mode(1920, 1080, 60, DRIVER);
    let d = FakeDevice::simple(vec![first, second], Some(second));
    let run = drive(&d, true);
    assert_eq!(run.notices.len(), 1);
    assert_eq!(run.notices[0].1.unwrap().size(), (1280, 720));
}

#[test]
fn disconnected_connector_is_passed_over() {
    let m = mode(1920, 1080, 60, PREFERRED);
    let mut d = FakeDevice::simple(vec![m], Some(m));
    d.connectors.get_mut(&10).unwrap().state = ConnectionState::Disconnected;
    let run = drive(&d, true);
    assert!(matches!(run.result, Ok(None)));
    assert_eq!(run.requests.len(), 2);
}

#[test]
fn unreadable_connector_is_passed_over() {
    let m = mode(1920, 1080, 60, PREFERRED);
    let mut d = FakeDevice::simple(vec![m], Some(m));
    d.resources = Some(vec![11, 10]);
    let run = drive(&d, true);
    assert_eq!(found(&run).0, 41);
    assert!(matches!(run.requests[1], Request::Connector(11)));
    assert!(matches!(run.requests[2], Request::Connector(10)));
}

#[test]
fn failed_encoder_read_tries_next_encoder() {
    let m = mode(1920, 1080, 60, PREFERRED);
    let mut d = FakeDevice::simple(vec![m], Some(m));
    d.connectors.get_mut(&10).unwrap().encoders = vec![21, 22, 20];
    d.encoders.insert(22, vec![]);
    let run = drive(&d, true);
    assert_eq!(found(&run).0, 41);
    assert!(run.requests.iter().any(|r| matches!(r, Request::Encoder(21))));
    assert!(run.requests.iter().any(|r| matches!(r, Request::Crtc(30))));
}

#[test]
fn first_crtc_of_encoder_is_taken() {
    let m = mode(1920, 1080, 60, PREFERRED);
    let mut d = FakeDevice::simple(vec![m], Some(m));
    d.encoders.insert(20, vec![31, 30]);
    d.crtcs.insert(31, Some(m));
    d.plane_crtcs.insert(41, vec![31]);
    let run = drive(&d, true);
    assert_eq!(found(&run).0, 41);
    assert!(run.requests.iter().any(|r| matches!(r, Request::Crtc(31))));
    assert!(!run.requests.iter().any(|r| matches!(r, Request::Crtc(30))));
}

#[test]
fn connector_without_crtc_is_passed_over() {
    let m = mode(1920, 1080, 60, PREFERRED);
    let mut d = FakeDevice::simple(vec![m], Some(m));
    d.encoders.insert(20, vec![]);
    let run = drive(&d, true);
    assert!(matches!(run.result, Ok(None)));
}

#[test]
fn failed_crtc_read_ends_search() {
    let m = mode(1920, 1080, 60, PREFERRED);
    let mut d = FakeDevice::simple(vec![m], Some(m));
    d.crtcs.clear();
    let run = drive(&d, true);
    assert_eq!(run.result.unwrap_err(), "no crtc 30");
}

#[test]
fn failed_resources_read_ends_search() {
    let d = FakeDevice::default();
    let run = drive(&d, true);
    assert_eq!(run.result.unwrap_err(), "resources");
}

#[test]
fn idle_crtc_skipped_when_mode_needed() {
    let m = mode(1920, 1080, 60, PREFERRED);
    let d = FakeDevice::simple(vec![m], None);
    let window = drive(&d, true);
    assert!(matches!(window.result, Ok(None)));
    assert_eq!(window.notices.len(), 1);
    assert!(window.notices[0].0.is_none());
    let plane = drive(&d, false);
    let (p, m) = found(&plane);
    assert_eq!(p, 41);
    assert!(m.is_none());
    assert_eq!(plane.notices.len(), 1);
}

#[test]
fn non_primary_and_unsuitable_planes_are_skipped() {
    let m = mode(1920, 1080, 60, PREFERRED);
    let mut d = FakeDevice::simple(vec![m], Some(m));
    d.planes = Some(vec![40, 42, 43, 41]);
    d.add_plane(42, 1, vec![35]);
    d.add_plane(43, 2, vec![30]);
    let run = drive(&d, true);
    assert_eq!(found(&run).0, 41);
    assert!(run.requests.iter().any(|r| matches!(r, Request::Plane(42))));
    assert!(!run.requests.iter().any(|r| matches!(r, Request::Plane(43))));
}

#[test]
fn no_suitable_plane_moves_to_next_connector() {
    let m = mode(1920, 1080, 60, PREFERRED);
    let mut d = FakeDevice::simple(vec![m], Some(m));
    d.resources = Some(vec![10, 12]);
    d.plane_crtcs.insert(41, vec![32]);
    d.connectors.insert(
        12,
        ConnectorInfo { state: ConnectionState::Connected, modes: vec![m], encoders: vec![23] },
    );
    d.encoders.insert(23, vec![32]);
    d.crtcs.insert(32, Some(m));
    let run = drive(&d, true);
    assert_eq!(found(&run).0, 41);
    let plane_reads = run.requests.iter().filter(|r| matches!(r, Request::PlaneHandles)).count();
    assert_eq!(plane_reads, 2);
}

#[test]
fn failed_property_name_read_ends_search() {
    let m = mode(1920, 1080, 60, PREFERRED);
    let mut d = FakeDevice::simple(vec![m], Some(m));
    d.names.remove(&OTHER_PROP);
    let run = drive(&d, true);
    assert_eq!(run.result.unwrap_err(), "no property 901");
}

#[test]
fn failed_plane_list_read_ends_search() {
    let m = mode(1920, 1080, 60, PREFERRED);
    let mut d = FakeDevice::simple(vec![m], Some(m));
    d.planes = None;
    let run = drive(&d, true);
    assert_eq!(run.result.unwrap_err(), "planes");
}

#[test]
fn plane_without_type_property_is_not_primary() {
    let m = mode(1920, 1080, 60, PREFERRED);
    let mut d = FakeDevice::simple(vec![m], Some(m));
    d.properties.insert(41, vec![PropertyValue { handle: OTHER_PROP, value: 1 }]);
    let run = drive(&d, true);
    assert!(matches!(run.result, Ok(None)));
}

#[test]
fn reply_of_wrong_kind_is_set_aside() {
    let (search, req) = OutputSearch::new(true);
    assert!(matches!(req, Request::Resources));
    let reply: Reply<String> = Reply::Reported;
    match search.resume(reply) {
        SearchStep::Next(s, again) => {
            assert!(matches!(again, Request::Resources));
            match s.resume(Reply::<String>::Resources(Ok(vec![]))) {
                SearchStep::Done(r) => assert!(matches!(r, Ok(None))),
                SearchStep::Next(..) => panic!("an empty device ends the search"),
            }
        }
        SearchStep::Done(_) => panic!("a reply of the wrong kind does not end the search"),
    }
}

#[test]
fn reads_stop_at_found_plane() {
    let m = mode(1920, 1080, 60, PREFERRED);
    let mut d = FakeDevice::simple(vec![m], Some(m));
    d.resources = Some(vec![10, 12]);
    d.planes = Some(vec![41, 40]);
    let run = drive(&d, true);
    assert_eq!(found(&run).0, 41);
    assert!(matches!(run.requests.last(), Some(Request::Plane(41))));
    assert!(!run.requests.iter().any(|r| matches!(r, Request::Connector(12))));
    assert!(!run.requests.iter().any(|r| matches!(r, Request::Properties(40))));
}

#[test]
fn reads_stop_at_failed_read() {
    let m = mode(1920, 1080, 60, PREFERRED);
    let mut d = FakeDevice::simple(vec![m], Some(m));
    d.resources = Some(vec![10, 12]);
    d.properties.remove(&41);
    let run = drive(&d, true);
    assert_eq!(run.result.unwrap_err(), "no properties 41");
    assert!(matches!(run.requests.last(), Some(Request::Properties(41))));
}

#[test]
fn both_searches_agree_when_crtcs_run_modes() {
    let m = mode(1920, 1080, 60, PREFERRED);
    let mut d = FakeDevice::simple(vec![m], Some(m));
    d.resources = Some(vec![11, 10]);
    let window = drive(&d, true);
    let plane = drive(&d, false);
    assert_eq!(found(&window).0, found(&plane).0);
    assert_eq!(window.requests.len(), plane.requests.len());
}
