use autotrader::ladder::{Ladder, PriceLevel};
use autotrader::types::{Price, Side, Station, Username, Volume};

#[test]
fn test_side_opposite() {
    assert_eq!(Side::Buy.opposite(), Side::Sell);
    assert_eq!(Side::Sell.opposite(), Side::Buy);
}

#[test]
fn test_price_checked_arithmetic() {
    assert_eq!(Price(700).checked_add(Price(200)), Some(Price(900)));
    assert_eq!(Price(65535).checked_add(Price(0)), Some(Price(65535)));
    assert_eq!(Price(65535).checked_add(Price(1)), None);
    assert_eq!(Price(700).checked_sub(Price(200)), Some(Price(500)));
    assert_eq!(Price(200).checked_sub(Price(200)), Some(Price(0)));
    assert_eq!(Price(200).checked_sub(Price(201)), None);
}

#[test]
fn test_price_order_and_default() {
    assert!(Price(1100) < Price(1200));
    assert!(Price(1200) == Price(1200));
    assert_eq!(Price::default(), Price(0));
}

#[test]
fn test_volume_arithmetic() {
    assert_eq!(Volume::largest(), Volume(65535));
    assert_eq!(Volume(20).checked_add(Volume(15)), Some(Volume(35)));
    assert_eq!(Volume(65535).checked_add(Volume(1)), None);
    assert_eq!(Volume(20).checked_sub(Volume(15)), Some(Volume(5)));
    assert_eq!(Volume(15).checked_sub(Volume(20)), None);
    assert_eq!(Volume(65000).saturating_add(Volume(535)), Volume(65535));
    assert_eq!(Volume(65000).saturating_add(Volume(536)), Volume(65535));
    assert_eq!(Volume(20).saturating_add(Volume(15)), Volume(35));
    assert_eq!(Volume(20).saturating_sub(Volume(15)), Volume(5));
    assert_eq!(Volume(15).saturating_sub(Volume(20)), Volume(0));
    assert_eq!(Volume(4).min(Volume(20)), Volume(4));
    assert_eq!(Volume(20).min(Volume(4)), Volume(4));
    assert_eq!(Volume::largest().min(Volume(2)), Volume(2));
    assert_eq!(Volume::default(), Volume(0));
}

#[test]
fn test_username() {
    let kliang = Username::new("kliang");
    assert!(kliang.is(&Username::new("kliang")));
    assert!(!kliang.is(&Username::new("prao")));
    assert!(kliang.clone().is(&kliang));
    assert_eq!(kliang, Username(String::from("kliang")));
}

#[test]
fn test_station_ids() {
    assert_eq!(Station::from_id(66037), Some(Station::SydAirport));
    assert_eq!(Station::from_id(66212), Some(Station::SydOlympicPark));
    assert_eq!(Station::from_id(70351), Some(Station::CanberraAirport));
    assert_eq!(Station::from_id(1), Some(Station::Index));
    assert_eq!(Station::from_id(0), None);
    assert_eq!(Station::from_id(58216), None);
    assert_eq!(Station::from_id(66038), None);
}

#[test]
fn test_station_ordinals() {
    assert_eq!(Station::SydAirport.ordinal(), 0);
    assert_eq!(Station::SydOlympicPark.ordinal(), 1);
    assert_eq!(Station::CanberraAirport.ordinal(), 2);
    assert_eq!(Station::Index.ordinal(), 3);
}

#[test]
fn test_station_id_round_trip() {
    for station in [
        Station::SydAirport,
        Station::SydOlympicPark,
        Station::CanberraAirport,
        Station::Index,
    ] {
        assert_eq!(Station::from_id(station.id()), Some(station));
    }
    assert_eq!(Station::Index.id(), 1);
    assert_eq!(Station::SydOlympicPark.id(), 66212);
}

#[test]
fn test_price_level_default() {
    assert_eq!(PriceLevel::default(), PriceLevel { price: Price(0), volume: Volume(0) });
}

#[test]
fn test_ladder_keeps_levels_in_price_order() {
    let mut ladder = Ladder::new();
    assert!(ladder.is_empty());
    assert_eq!(ladder.lowest(), None);
    assert_eq!(ladder.highest(), None);
    assert!(ladder.add(Price(3329), Volume(20)));
    assert!(ladder.add(Price(3101), Volume(50)));
    assert!(ladder.add(Price(3001), Volume(1)));
    assert_eq!(ladder.len(), 3);
    assert_eq!(ladder.level(0), PriceLevel { price: Price(3001), volume: Volume(1) });
    assert_eq!(ladder.level(1), PriceLevel { price: Price(3101), volume: Volume(50) });
    assert_eq!(ladder.level(2), PriceLevel { price: Price(3329), volume: Volume(20) });
    assert_eq!(ladder.lowest(), Some(PriceLevel { price: Price(3001), volume: Volume(1) }));
    assert_eq!(ladder.highest(), Some(PriceLevel { price: Price(3329), volume: Volume(20) }));
}

#[test]
fn test_ladder_adds_to_a_level() {
    let mut ladder = Ladder::new();
    assert!(ladder.add(Price(2431), Volume(20)));
    assert!(ladder.add(Price(2431), Volume(15)));
    assert_eq!(ladder.len(), 1);
    assert_eq!(ladder.volume_at(Price(2431)), Volume(35));
    assert_eq!(ladder.volume_at(Price(2430)), Volume(0));
}

#[test]
fn test_ladder_refuses_empty_and_overflowing_volume() {
    let mut ladder = Ladder::new();
    assert!(!ladder.add(Price(100), Volume(0)));
    assert!(ladder.is_empty());
    assert!(ladder.add(Price(100), Volume(65535)));
    assert!(!ladder.add(Price(100), Volume(1)));
    assert_eq!(ladder.volume_at(Price(100)), Volume(65535));
    assert!(ladder.add(Price(101), Volume(1)));
}

#[test]
fn test_ladder_take_closes_empty_level() {
    let mut ladder = Ladder::new();
    assert!(ladder.add(Price(2431), Volume(35)));
    assert!(ladder.add(Price(2890), Volume(5)));
    assert!(ladder.take(Price(2431), Volume(20)));
    assert_eq!(ladder.volume_at(Price(2431)), Volume(15));
    assert_eq!(ladder.len(), 2);
    assert!(ladder.take(Price(2431), Volume(15)));
    assert_eq!(ladder.len(), 1);
    assert_eq!(ladder.lowest(), Some(PriceLevel { price: Price(2890), volume: Volume(5) }));
}

#[test]
fn test_ladder_take_refuses_more_than_rests() {
    let mut ladder = Ladder::new();
    assert!(ladder.add(Price(2431), Volume(35)));
    assert!(!ladder.take(Price(2431), Volume(36)));
    assert!(!ladder.take(Price(2430), Volume(1)));
    assert!(ladder.take(Price(2430), Volume(0)));
    assert_eq!(ladder.volume_at(Price(2431)), Volume(35));
    assert_eq!(ladder.len(), 1);
}

#[test]
fn test_ladder_clone_is_equal() {
    let mut ladder = Ladder::new();
    assert!(ladder.add(Price(500), Volume(2)));
    assert!(ladder.add(Price(600), Volume(3)));
    let copy = ladder.clone();
    assert_eq!(copy, ladder);
    assert_eq!(copy.len(), 2);
}
