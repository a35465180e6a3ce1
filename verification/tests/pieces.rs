use bevy_drm_vk::device::{PropertyValue, Reply, Request};
use bevy_drm_vk::mode::{preferred_mode, same_optional, DisplayMode};
use bevy_drm_vk::plane::{decode_plane_type, is_type_property, PlaneType, PlaneTypeQuery, QueryStep};
use bevy_drm_vk::window::{despawn_windows, ClosedWindow};

fn mode(width: u16, mode_type: u32) -> DisplayMode {
    DisplayMode {
        clock: 1,
        hdisplay: width,
        hsync_start: 0,
        hsync_end: 0,
        htotal: 0,
        hskew: 0,
        vdisplay: 100,
        vsync_start: 0,
        vsync_end: 0,
        vtotal: 0,
        vscan: 0,
        vrefresh: 60,
        flags: 0,
        mode_type,
        name: [0u8; 32],
    }
}

#[test]
fn plane_type_values_decode_as_drm_numbers() {
    assert_eq!(decode_plane_type(0), Some(PlaneType::Overlay));
    assert_eq!(decode_plane_type(1), Some(PlaneType::Primary));
    assert_eq!(decode_plane_type(2), Some(PlaneType::Cursor));
    assert_eq!(decode_plane_type(3), None);
    assert_eq!(decode_plane_type(0x1_0000_0001), Some(PlaneType::Primary));
    assert_eq!(decode_plane_type(u64::MAX), None);
}

#[test]
fn type_property_name_is_exact() {
    assert!(is_type_property(&b"type".to_vec()));
    assert!(!is_type_property(&b"Type".to_vec()));
    assert!(!is_type_property(&b"types".to_vec()));
    assert!(!is_type_property(&Vec::new()));
}

#[test]
fn preferred_flag_is_bit_three() {
    assert!(mode(1, 8).is_preferred());
    assert!(mode(1, 8 | 64).is_preferred());
    assert!(!mode(1, 64).is_preferred());
    assert!(!mode(1, 0).is_preferred());
    assert!(!mode(1, 16).is_preferred());
}

#[test]
fn preferred_mode_is_first_flagged_else_first() {
    let modes = vec![mode(1, 0), mode(2, 8), mode(3, 8)];
    assert_eq!(preferred_mode(&modes).unwrap().hdisplay, 2);
    let unflagged = vec![mode(4, 64), mode(5, 0)];
    assert_eq!(preferred_mode(&unflagged).unwrap().hdisplay, 4);
    assert!(preferred_mode(&Vec::new()).is_none());
}

#[test]
fn modes_compare_field_by_field() {
    let a = mode(1920, 8);
    let mut b = a;
    assert!(a.same_mode(&b));
    b.name[31] = 1;
    assert!(!a.same_mode(&b));
    let mut c = a;
    c.vrefresh = 59;
    assert!(!a.same_mode(&c));
    assert!(same_optional(&None, &None));
    assert!(!same_optional(&Some(a), &None));
    assert!(same_optional(&Some(a), &Some(a)));
}

fn look_up(props: Vec<PropertyValue>, names: &[(u32, Result<Vec<u8>, String>)]) -> Result<Option<PlaneType>, String> {
    let (mut q, mut req) = PlaneTypeQuery::new(7);
    assert!(matches!(req, Request::Properties(7)));
    let mut props = Some(props);
    loop {
        let reply = match req {
            Request::Properties(_) => Reply::Properties(Ok(props.take().unwrap())),
            Request::Property(h) => {
                Reply::Property(names.iter().find(|(n, _)| *n == h).unwrap().1.clone())
            }
            _ => panic!("a lookup reads only properties"),
        };
        match q.resume(reply) {
            QueryStep::Next(next, r) => {
                q = next;
                req = r;
            }
            QueryStep::Done(result) => return result,
        }
    }
}

#[test]
fn plane_type_lookup_reads_names_until_type() {
    let props = vec![
        PropertyValue { handle: 1, value: 5 },
        PropertyValue { handle: 2, value: 2 },
        PropertyValue { handle: 3, value: 1 },
    ];
    let names = [
        (1, Ok(b"rotation".to_vec())),
        (2, Ok(b"type".to_vec())),
        (3, Err("unread".to_string())),
    ];
    assert_eq!(look_up(props, &names), Ok(Some(PlaneType::Cursor)));
}

#[test]
fn plane_type_lookup_fails_on_unreadable_name() {
    let props = vec![PropertyValue { handle: 1, value: 5 }, PropertyValue { handle: 2, value: 1 }];
    let names = [(1, Err("gone".to_string())), (2, Ok(b"type".to_vec()))];
    assert_eq!(look_up(props, &names), Err("gone".to_string()));
}

#[test]
fn plane_type_lookup_without_type_property() {
    assert_eq!(look_up(Vec::new(), &[]), Ok(None));
    let props = vec![PropertyValue { handle: 1, value: 1 }];
    assert_eq!(look_up(props, &[(1, Ok(b"zpos".to_vec()))]), Ok(None));
}

#[test]
fn plane_type_lookup_fails_on_unreadable_properties() {
    let (q, _) = PlaneTypeQuery::new(3);
    match q.resume(Reply::<String>::Properties(Err("busy".to_string()))) {
        QueryStep::Done(r) => assert_eq!(r, Err("busy".to_string())),
        QueryStep::Next(..) => panic!("a failed read ends the lookup"),
    }
}

#[test]
fn teardown_announces_gone_windows_and_takes_window_once() {
    let reported = vec![
        ClosedWindow { entity: 1, still_open: true },
        ClosedWindow { entity: 2, still_open: false },
        ClosedWindow { entity: 3, still_open: false },
    ];
    let t = despawn_windows(&reported, true);
    assert_eq!(t.closed, vec![2, 3]);
    assert!(t.take_window);
    let again = despawn_windows(&reported, false);
    assert_eq!(again.closed, vec![2, 3]);
    assert!(!again.take_window);
}

#[test]
fn teardown_of_reopened_window_does_nothing() {
    let reported = vec![ClosedWindow { entity: 9, still_open: true }];
    let t = despawn_windows(&reported, true);
    assert!(t.closed.is_empty());
    assert!(!t.take_window);
    let none = despawn_windows(&Vec::new(), true);
    assert!(none.closed.is_empty());
    assert!(!none.take_window);
}
