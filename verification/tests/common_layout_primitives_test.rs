use brickrail::common::layout_primitives::{
    CellID, DirectedTrackID, Orientation, TrackConnectionID, TrackDirection, TrackID,
};

#[test]
fn track_id_round_trip() {
    let track = TrackID::new(CellID::new(33, 30, -53), Orientation::NE);
    assert_eq!(track, TrackID::from_name(&track.get_name()).unwrap());
}

#[test]
fn adjacent_tracks_connect() {
    let t1 = TrackID::new(CellID::new(0, 0, 0), Orientation::EW);
    let t2 = TrackID::new(CellID::new(1, 0, 0), Orientation::EW);
    let conn = t1.get_connection_to(t2).expect("should connect");
    assert_eq!(conn.track_a.track, t1);
    assert_eq!(conn.track_b.track, t2);
}

#[test]
fn non_adjacent_tracks_no_connection() {
    let t1 = TrackID::new(CellID::new(0, 0, 0), Orientation::EW);
    let t2 = TrackID::new(CellID::new(2, 0, 0), Orientation::EW);
    assert!(t1.get_connection_to(t2).is_none());
}

#[test]
fn incompatible_orientation_no_connection() {
    let t1 = TrackID::new(CellID::new(0, 0, 0), Orientation::NS);
    let t2 = TrackID::new(CellID::new(1, 0, 0), Orientation::EW);
    assert!(t1.get_connection_to(t2).is_none());
}

#[test]
fn connection_id_normalized() {
    let t1 = TrackID::new(CellID::new(0, 0, 0), Orientation::EW);
    let t2 = TrackID::new(CellID::new(1, 0, 0), Orientation::EW);
    let conn_a = t1.get_connection_to(t2).unwrap();
    let conn_b = t2.get_connection_to(t1).unwrap();
    assert_eq!(conn_a, conn_b);
}

#[test]
fn adjacent_connection_is_continuous() {
    let t1 = TrackID::new(CellID::new(0, 0, 0), Orientation::EW);
    let t2 = TrackID::new(CellID::new(1, 0, 0), Orientation::EW);
    let conn = t1.get_connection_to(t2).unwrap();
    assert!(conn.is_continuous());
    assert!(!conn.is_portal());
}

#[test]
fn portal_connection_is_not_continuous() {
    let t1 = DirectedTrackID::new(TrackID::new(CellID::new(0, 0, 0), Orientation::EW), TrackDirection::First);
    let t2 = DirectedTrackID::new(TrackID::new(CellID::new(5, 5, 0), Orientation::EW), TrackDirection::Last);
    let conn = TrackConnectionID::new(t1, t2);
    assert!(!conn.is_continuous());
    assert!(conn.is_portal());
}

#[test]
fn malformed_track_names_are_rejected() {
    assert!(TrackID::from_name("0,0,0").is_none());
    assert!(TrackID::from_name("0,x,0|EW").is_none());
    assert!(TrackID::from_name("0,0|EW").is_none());
    assert!(TrackID::from_name("0,0,0|WE").is_none());
    assert_eq!(
        TrackID::from_name("1,-2,0|NS|extra"),
        Some(TrackID::new(CellID::new(1, -2, 0), Orientation::NS))
    );
}
