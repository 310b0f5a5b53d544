use brickrail::layout_primitives::{
    CellID, DirectedTrackID, Facing, LogicalTrackID, Orientation, TrackDirection, TrackID,
};
use brickrail::marker::{MarkerColor, MarkerKey, MarkerSpeed};
use brickrail::route::{LegIntention, RouteMarkerData};

fn marker(color: MarkerColor, speed: MarkerSpeed, key: MarkerKey) -> RouteMarkerData {
    let track = DirectedTrackID::new(TrackID::new(CellID::new(0, 0, 0), Orientation::EW), TrackDirection::First);
    RouteMarkerData { track: LogicalTrackID { dirtrack: track, facing: Facing::Forward }, color, speed, key }
}

#[test]
fn marker_byte_packs_speed_key_and_color() {
    // speed in bits 6-7, key in bits 4-5, colour in bits 0-3
    let m = marker(MarkerColor::Red, MarkerSpeed::Slow, MarkerKey::In);
    assert_eq!(m.as_train_u8(false), (2 << 6) | (2 << 4) | 3);
    assert_eq!(m.as_train_u8(true), (2 << 6) | (1 << 4) | 3);
    let any = marker(MarkerColor::Any, MarkerSpeed::Cruise, MarkerKey::Other);
    assert_eq!(any.as_train_u8(false), 0b1100_1111);
}

#[test]
fn marker_byte_gives_back_its_fields() {
    for color in [MarkerColor::Any, MarkerColor::Red, MarkerColor::Blue, MarkerColor::Yellow, MarkerColor::Green] {
        for speed in [MarkerSpeed::Slow, MarkerSpeed::Cruise, MarkerSpeed::Fast] {
            let m = marker(color, speed, MarkerKey::Other);
            let b = m.as_train_u8(true);
            assert_eq!(b >> 6, speed.as_train_u8());
            assert_eq!((b >> 4) & 3, MarkerKey::Enter.as_train_u8());
            assert_eq!(b & 15, color.as_train_u8());
        }
    }
}

#[test]
fn intention_flags() {
    assert_eq!(LegIntention::Pass.as_train_flag(), 0);
    assert_eq!(LegIntention::Stop.as_train_flag(), 2);
}
