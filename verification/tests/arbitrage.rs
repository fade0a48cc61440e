use autotrader::arbitrage::find_arbs;
use autotrader::book::{Book, Position};
use autotrader::ladder::Ladder;
use autotrader::order::{AddMessage, MessageType, OrderType};
use autotrader::types::{Price, Side, Station, Volume};

const EXPIRY: &str = "2024-01-04 09:50+1100";
const PRODUCT1: &str = "1";
const PRODUCT2: &str = "2";
const PRODUCT3: &str = "3";
const PRODUCT4: &str = "4";

fn ladder<const N: usize>(levels: [(Price, Volume); N]) -> Ladder {
    let mut ladder = Ladder::new();
    for (price, volume) in levels {
        assert!(ladder.add(price, volume));
    }
    ladder
}

#[test]
fn test_no_orders() {
    let books = [
        Book::new(String::new(), Station::SydAirport, String::new()),
        Book::new(String::new(), Station::SydOlympicPark, String::new()),
        Book::new(String::new(), Station::CanberraAirport, String::new()),
        Book::new(String::new(), Station::Index, String::new()),
    ];
    assert_eq!(
        find_arbs(&[&books[0], &books[1], &books[2], &books[3]], Price(0)),
        Vec::<AddMessage>::new(),
    );
}

#[test]
fn test_no_arbs_on_either_side() {
    let books = [
        Book {
            bids: ladder([(Price(700), Volume(20)), (Price(500), Volume(11))]),
            asks: ladder([(Price(1000), Volume(5)), (Price(1050), Volume(1))]),
            orders: Vec::new(),
            position: Position::default(),
            product: PRODUCT1.to_string(),
            station_id: Station::SydAirport,
            expiry: EXPIRY.to_string(),
        },
        Book {
            bids: ladder([(Price(200), Volume(6)), (Price(100), Volume(5))]),
            asks: ladder([
                (Price(300), Volume(1)),
                (Price(400), Volume(2)),
                (Price(500), Volume(2)),
                (Price(600), Volume(8)),
            ]),
            orders: Vec::new(),
            position: Position::default(),
            product: PRODUCT2.to_string(),
            station_id: Station::SydOlympicPark,
            expiry: EXPIRY.to_string(),
        },
        Book {
            bids: ladder([(Price(500), Volume(1)), (Price(300), Volume(8))]),
            asks: ladder([(Price(700), Volume(9)), (Price(800), Volume(1))]),
            orders: Vec::new(),
            position: Position::default(),
            product: PRODUCT3.to_string(),
            station_id: Station::CanberraAirport,
            expiry: EXPIRY.to_string(),
        },
        Book {
            bids: ladder([(Price(1400), Volume(9)), (Price(1350), Volume(2))]),
            asks: ladder([(Price(2000), Volume(7))]),
            orders: Vec::new(),
            position: Position::default(),
            product: PRODUCT4.to_string(),
            station_id: Station::Index,
            expiry: EXPIRY.to_string(),
        },
    ];
    assert_eq!(
        find_arbs(&[&books[0], &books[1], &books[2], &books[3]], Price(0)),
        Vec::<AddMessage>::new(),
    );
}

#[test]
fn test_buy_underlying_sell_index_other_side_empty() {
    let books = [
        Book {
            bids: Ladder::new(),
            asks: ladder([(Price(1100), Volume(4)), (Price(1200), Volume(25))]),
            orders: Vec::new(),
            position: Position::default(),
            product: PRODUCT1.to_string(),
            station_id: Station::SydAirport,
            expiry: EXPIRY.to_string(),
        },
        Book {
            bids: Ladder::new(),
            asks: ladder([(Price(1300), Volume(20))]),
            orders: Vec::new(),
            position: Position::default(),
            product: PRODUCT2.to_string(),
            station_id: Station::SydOlympicPark,
            expiry: EXPIRY.to_string(),
        },
        Book {
            bids: Ladder::new(),
            asks: ladder([
                (Price(500), Volume(2)),
                (Price(600), Volume(3)),
                (Price(700), Volume(5)),
            ]),
            orders: Vec::new(),
            position: Position::default(),
            product: PRODUCT3.to_string(),
            station_id: Station::CanberraAirport,
            expiry: EXPIRY.to_string(),
        },
        Book {
            bids: ladder([
                (Price(3500), Volume(1)),
                (Price(3400), Volume(3)),
                (Price(3200), Volume(20)),
                (Price(3000), Volume(3)),
            ]),
            asks: Ladder::new(),
            orders: Vec::new(),
            position: Position::default(),
            product: PRODUCT4.to_string(),
            station_id: Station::Index,
            expiry: EXPIRY.to_string(),
        },
    ];
    assert_eq!(
        find_arbs(&[&books[0], &books[1], &books[2], &books[3]], Price(0)),
        vec![
            AddMessage {
                message_type: MessageType::Add,
                product: PRODUCT1.to_string(),
                price: Price(1200),
                side: Side::Buy,
                volume: Volume(5),
                order_type: OrderType::Ioc,
            },
            AddMessage {
                message_type: MessageType::Add,
                product: PRODUCT2.to_string(),
                price: Price(1300),
                side: Side::Buy,
                volume: Volume(5),
                order_type: OrderType::Ioc,
            },
            AddMessage {
                message_type: MessageType::Add,
                product: PRODUCT3.to_string(),
                price: Price(600),
                side: Side::Buy,
                volume: Volume(5),
                order_type: OrderType::Ioc,
            },
            AddMessage {
                message_type: MessageType::Add,
                product: PRODUCT4.to_string(),
                price: Price(3200),
                side: Side::Sell,
                volume: Volume(5),
                order_type: OrderType::Ioc,
            },
        ],
    );
}

#[test]
fn test_buy_underlying_sell_index_other_side_not_empty() {
    let books = [
        Book {
            bids: ladder([(Price(800), Volume(100))]),
            asks: ladder([(Price(1100), Volume(4)), (Price(1200), Volume(25))]),
            orders: Vec::new(),
            position: Position::default(),
            product: PRODUCT1.to_string(),
            station_id: Station::SydAirport,
            expiry: EXPIRY.to_string(),
        },
        Book {
            bids: ladder([(Price(800), Volume(100)), (Price(950), Volume(50))]),
            asks: ladder([(Price(1300), Volume(20))]),
            orders: Vec::new(),
            position: Position::default(),
            product: PRODUCT2.to_string(),
            station_id: Station::SydOlympicPark,
            expiry: EXPIRY.to_string(),
        },
        Book {
            bids: Ladder::new(),
            asks: ladder([
                (Price(500), Volume(2)),
                (Price(600), Volume(3)),
                (Price(700), Volume(5)),
            ]),
            orders: Vec::new(),
            position: Position::default(),
            product: PRODUCT3.to_string(),
            station_id: Station::CanberraAirport,
            expiry: EXPIRY.to_string(),
        },
        Book {
            bids: ladder([
                (Price(3500), Volume(1)),
                (Price(3400), Volume(3)),
                (Price(3200), Volume(20)),
                (Price(3000), Volume(3)),
            ]),
            asks: ladder([(Price(3599), Volume(99))]),
            orders: Vec::new(),
            position: Position::default(),
            product: PRODUCT4.to_string(),
            station_id: Station::Index,
            expiry: EXPIRY.to_string(),
        },
    ];
    assert_eq!(
        find_arbs(&[&books[0], &books[1], &books[2], &books[3]], Price(0)),
        vec![
            AddMessage {
                message_type: MessageType::Add,
                product: PRODUCT1.to_string(),
                price: Price(1200),
                side: Side::Buy,
                volume: Volume(5),
                order_type: OrderType::Ioc,
            },
            AddMessage {
                message_type: MessageType::Add,
                product: PRODUCT2.to_string(),
                price: Price(1300),
                side: Side::Buy,
                volume: Volume(5),
                order_type: OrderType::Ioc,
            },
            AddMessage {
                message_type: MessageType::Add,
                product: PRODUCT3.to_string(),
                price: Price(600),
                side: Side::Buy,
                volume: Volume(5),
                order_type: OrderType::Ioc,
            },
            AddMessage {
                message_type: MessageType::Add,
                product: PRODUCT4.to_string(),
                price: Price(3200),
                side: Side::Sell,
                volume: Volume(5),
                order_type: OrderType::Ioc,
            },
        ],
    );
}

#[test]
fn test_buy_underlying_sell_index_one_leg_out_of_orders() {
    let books = [
        Book {
            bids: Ladder::new(),
            asks: ladder([(Price(1100), Volume(4)), (Price(1200), Volume(25))]),
            orders: Vec::new(),
            position: Position::default(),
            product: PRODUCT1.to_string(),
            station_id: Station::SydAirport,
            expiry: EXPIRY.to_string(),
        },
        Book {
            bids: Ladder::new(),
            asks: ladder([(Price(1300), Volume(20))]),
            orders: Vec::new(),
            position: Position::default(),
            product: PRODUCT2.to_string(),
            station_id: Station::SydOlympicPark,
            expiry: EXPIRY.to_string(),
        },
        Book {
            bids: Ladder::new(),
            asks: ladder([(Price(500), Volume(2)), (Price(600), Volume(3))]),
            orders: Vec::new(),
            position: Position::default(),
            product: PRODUCT3.to_string(),
            station_id: Station::CanberraAirport,
            expiry: EXPIRY.to_string(),
        },
        Book {
            bids: ladder([
                (Price(3500), Volume(1)),
                (Price(3400), Volume(3)),
                (Price(3200), Volume(20)),
                (Price(3000), Volume(3)),
            ]),
            asks: Ladder::new(),
            orders: Vec::new(),
            position: Position::default(),
            product: PRODUCT4.to_string(),
            station_id: Station::Index,
            expiry: EXPIRY.to_string(),
        },
    ];
    assert_eq!(
        find_arbs(&[&books[0], &books[1], &books[2], &books[3]], Price(0)),
        vec![
            AddMessage {
                message_type: MessageType::Add,
                product: PRODUCT1.to_string(),
                price: Price(1200),
                side: Side::Buy,
                volume: Volume(5),
                order_type: OrderType::Ioc,
            },
            AddMessage {
                message_type: MessageType::Add,
                product: PRODUCT2.to_string(),
                price: Price(1300),
                side: Side::Buy,
                volume: Volume(5),
                order_type: OrderType::Ioc,
            },
            AddMessage {
                message_type: MessageType::Add,
                product: PRODUCT3.to_string(),
                price: Price(600),
                side: Side::Buy,
                volume: Volume(5),
                order_type: OrderType::Ioc,
            },
            AddMessage {
                message_type: MessageType::Add,
                product: PRODUCT4.to_string(),
                price: Price(3200),
                side: Side::Sell,
                volume: Volume(5),
                order_type: OrderType::Ioc,
            },
        ],
    );
}

#[test]
fn test_buy_underlying_sell_index_index_out_of_volume() {
    let books = [
        Book {
            bids: Ladder::new(),
            asks: ladder([(Price(1100), Volume(4)), (Price(1200), Volume(25))]),
            orders: Vec::new(),
            position: Position::default(),
            product: PRODUCT1.to_string(),
            station_id: Station::SydAirport,
            expiry: EXPIRY.to_string(),
        },
        Book {
            bids: Ladder::new(),
            asks: ladder([(Price(1300), Volume(20))]),
            orders: Vec::new(),
            position: Position::default(),
            product: PRODUCT2.to_string(),
            station_id: Station::SydOlympicPark,
            expiry: EXPIRY.to_string(),
        },
        Book {
            bids: Ladder::new(),
            asks: ladder([
                (Price(500), Volume(2)),
                (Price(600), Volume(3)),
                (Price(700), Volume(5)),
            ]),
            orders: Vec::new(),
            position: Position::default(),
            product: PRODUCT3.to_string(),
            station_id: Station::CanberraAirport,
            expiry: EXPIRY.to_string(),
        },
        Book {
            bids: ladder([
                (Price(3500), Volume(1)),
                (Price(3400), Volume(3)),
                (Price(3000), Volume(3)),
            ]),
            asks: Ladder::new(),
            orders: Vec::new(),
            position: Position::default(),
            product: PRODUCT4.to_string(),
            station_id: Station::Index,
            expiry: EXPIRY.to_string(),
        },
    ];
    assert_eq!(
        find_arbs(&[&books[0], &books[1], &books[2], &books[3]], Price(0)),
        vec![
            AddMessage {
                message_type: MessageType::Add,
                product: PRODUCT1.to_string(),
                price: Price(1100),
                side: Side::Buy,
                volume: Volume(4),
                order_type: OrderType::Ioc,
            },
            AddMessage {
                message_type: MessageType::Add,
                product: PRODUCT2.to_string(),
                price: Price(1300),
                side: Side::Buy,
                volume: Volume(4),
                order_type: OrderType::Ioc,
            },
            AddMessage {
                message_type: MessageType::Add,
                product: PRODUCT3.to_string(),
                price: Price(600),
                side: Side::Buy,
                volume: Volume(4),
                order_type: OrderType::Ioc,
            },
            AddMessage {
                message_type: MessageType::Add,
                product: PRODUCT4.to_string(),
                price: Price(3400),
                side: Side::Sell,
                volume: Volume(4),
                order_type: OrderType::Ioc,
            },
        ],
    );
}

#[test]
fn test_buy_underlying_sell_index_index_out_of_orders() {
    let books = [
        Book {
            bids: Ladder::new(),
            asks: ladder([(Price(1100), Volume(4)), (Price(1200), Volume(25))]),
            orders: Vec::new(),
            position: Position::default(),
            product: PRODUCT1.to_string(),
            station_id: Station::SydAirport,
            expiry: EXPIRY.to_string(),
        },
        Book {
            bids: Ladder::new(),
            asks: ladder([(Price(1300), Volume(20))]),
            orders: Vec::new(),
            position: Position::default(),
            product: PRODUCT2.to_string(),
            station_id: Station::SydOlympicPark,
            expiry: EXPIRY.to_string(),
        },
        Book {
            bids: Ladder::new(),
            asks: ladder([
                (Price(500), Volume(2)),
                (Price(600), Volume(3)),
                (Price(700), Volume(5)),
            ]),
            orders: Vec::new(),
            position: Position::default(),
            product: PRODUCT3.to_string(),
            station_id: Station::CanberraAirport,
            expiry: EXPIRY.to_string(),
        },
        Book {
            bids: ladder([(Price(3500), Volume(1)), (Price(3400), Volume(3))]),
            asks: Ladder::new(),
            orders: Vec::new(),
            position: Position::default(),
            product: PRODUCT4.to_string(),
            station_id: Station::Index,
            expiry: EXPIRY.to_string(),
        },
    ];
    assert_eq!(
        find_arbs(&[&books[0], &books[1], &books[2], &books[3]], Price(0)),
        vec![
            AddMessage {
                message_type: MessageType::Add,
                product: PRODUCT1.to_string(),
                price: Price(1100),
                side: Side::Buy,
                volume: Volume(4),
                order_type: OrderType::Ioc,
            },
            AddMessage {
                message_type: MessageType::Add,
                product: PRODUCT2.to_string(),
                price: Price(1300),
                side: Side::Buy,
                volume: Volume(4),
                order_type: OrderType::Ioc,
            },
            AddMessage {
                message_type: MessageType::Add,
                product: PRODUCT3.to_string(),
                price: Price(600),
                side: Side::Buy,
                volume: Volume(4),
                order_type: OrderType::Ioc,
            },
            AddMessage {
                message_type: MessageType::Add,
                product: PRODUCT4.to_string(),
                price: Price(3400),
                side: Side::Sell,
                volume: Volume(4),
                order_type: OrderType::Ioc,
            },
        ],
    );
}

#[test]
fn test_buy_index_sell_underlying_enough_volume() {
    let books = [
        Book {
            bids: ladder([(Price(700), Volume(20)), (Price(500), Volume(11))]),
            asks: ladder([(Price(1000), Volume(5)), (Price(1050), Volume(1))]),
            orders: Vec::new(),
            position: Position::default(),
            product: PRODUCT1.to_string(),
            station_id: Station::SydAirport,
            expiry: EXPIRY.to_string(),
        },
        Book {
            bids: ladder([(Price(200), Volume(6)), (Price(100), Volume(5))]),
            asks: ladder([
                (Price(300), Volume(1)),
                (Price(400), Volume(2)),
                (Price(500), Volume(2)),
                (Price(600), Volume(8)),
            ]),
            orders: Vec::new(),
            position: Position::default(),
            product: PRODUCT2.to_string(),
            station_id: Station::SydOlympicPark,
            expiry: EXPIRY.to_string(),
        },
        Book {
            bids: ladder([(Price(500), Volume(1)), (Price(300), Volume(8))]),
            asks: ladder([(Price(700), Volume(9)), (Price(800), Volume(1))]),
            orders: Vec::new(),
            position: Position::default(),
            product: PRODUCT3.to_string(),
            station_id: Station::CanberraAirport,
            expiry: EXPIRY.to_string(),
        },
        Book {
            bids: ladder([(Price(900), Volume(9)), (Price(350), Volume(2))]),
            asks: ladder([(Price(1200), Volume(100))]),
            orders: Vec::new(),
            position: Position::default(),
            product: PRODUCT4.to_string(),
            station_id: Station::Index,
            expiry: EXPIRY.to_string(),
        },
    ];
    assert_eq!(
        find_arbs(&[&books[0], &books[1], &books[2], &books[3]], Price(0)),
        vec![
            AddMessage {
                message_type: MessageType::Add,
                product: PRODUCT1.to_string(),
                price: Price(700),
                side: Side::Sell,
                volume: Volume(1),
                order_type: OrderType::Ioc,
            },
            AddMessage {
                message_type: MessageType::Add,
                product: PRODUCT2.to_string(),
                price: Price(200),
                side: Side::Sell,
                volume: Volume(1),
                order_type: OrderType::Ioc,
            },
            AddMessage {
                message_type: MessageType::Add,
                product: PRODUCT3.to_string(),
                price: Price(500),
                side: Side::Sell,
                volume: Volume(1),
                order_type: OrderType::Ioc,
            },
            AddMessage {
                message_type: MessageType::Add,
                product: PRODUCT4.to_string(),
                price: Price(1200),
                side: Side::Buy,
                volume: Volume(1),
                order_type: OrderType::Ioc,
            },
        ],
    );
}

#[test]
fn test_buy_index_sell_underlying_big_volume_best_ask() {
    let books = [
        Book {
            bids: ladder([(Price(700), Volume(20)), (Price(500), Volume(11))]),
            asks: ladder([(Price(1000), Volume(5)), (Price(1050), Volume(1))]),
            orders: Vec::new(),
            position: Position::default(),
            product: PRODUCT1.to_string(),
            station_id: Station::SydAirport,
            expiry: EXPIRY.to_string(),
        },
        Book {
            bids: ladder([(Price(200), Volume(6)), (Price(100), Volume(5))]),
            asks: ladder([
                (Price(300), Volume(1)),
                (Price(400), Volume(2)),
                (Price(500), Volume(2)),
                (Price(600), Volume(8)),
            ]),
            orders: Vec::new(),
            position: Position::default(),
            product: PRODUCT2.to_string(),
            station_id: Station::SydOlympicPark,
            expiry: EXPIRY.to_string(),
        },
        Book {
            bids: ladder([(Price(500), Volume(1)), (Price(300), Volume(8))]),
            asks: ladder([(Price(700), Volume(9)), (Price(800), Volume(1))]),
            orders: Vec::new(),
            position: Position::default(),
            product: PRODUCT3.to_string(),
            station_id: Station::CanberraAirport,
            expiry: EXPIRY.to_string(),
        },
        Book {
            bids: ladder([(Price(900), Volume(9)), (Price(350), Volume(2))]),
            asks: ladder([(Price(1000), Volume(100))]),
            orders: Vec::new(),
            position: Position::default(),
            product: PRODUCT4.to_string(),
            station_id: Station::Index,
            expiry: EXPIRY.to_string(),
        },
    ];
    assert_eq!(
        find_arbs(&[&books[0], &books[1], &books[2], &books[3]], Price(0)),
        vec![
            AddMessage {
                message_type: MessageType::Add,
                product: PRODUCT1.to_string(),
                price: Price(700),
                side: Side::Sell,
                volume: Volume(9),
                order_type: OrderType::Ioc,
            },
            AddMessage {
                message_type: MessageType::Add,
                product: PRODUCT2.to_string(),
                price: Price(100),
                side: Side::Sell,
                volume: Volume(9),
                order_type: OrderType::Ioc,
            },
            AddMessage {
                message_type: MessageType::Add,
                product: PRODUCT3.to_string(),
                price: Price(300),
                side: Side::Sell,
                volume: Volume(9),
                order_type: OrderType::Ioc,
            },
            AddMessage {
                message_type: MessageType::Add,
                product: PRODUCT4.to_string(),
                price: Price(1000),
                side: Side::Buy,
                volume: Volume(9),
                order_type: OrderType::Ioc,
            },
        ],
    );
}

#[test]
fn test_buy_index_sell_underlying_index_no_asks() {
    let books = [
        Book {
            bids: ladder([(Price(700), Volume(20)), (Price(500), Volume(11))]),
            asks: ladder([(Price(1000), Volume(5)), (Price(1050), Volume(1))]),
            orders: Vec::new(),
            position: Position::default(),
            product: PRODUCT1.to_string(),
            station_id: Station::SydAirport,
            expiry: EXPIRY.to_string(),
        },
        Book {
            bids: ladder([(Price(200), Volume(6)), (Price(100), Volume(5))]),
            asks: ladder([
                (Price(300), Volume(1)),
                (Price(400), Volume(2)),
                (Price(500), Volume(2)),
                (Price(600), Volume(8)),
            ]),
            orders: Vec::new(),
            position: Position::default(),
            product: PRODUCT2.to_string(),
            station_id: Station::SydOlympicPark,
            expiry: EXPIRY.to_string(),
        },
        Book {
            bids: ladder([(Price(500), Volume(1)), (Price(300), Volume(8))]),
            asks: ladder([(Price(700), Volume(9)), (Price(800), Volume(1))]),
            orders: Vec::new(),
            position: Position::default(),
            product: PRODUCT3.to_string(),
            station_id: Station::CanberraAirport,
            expiry: EXPIRY.to_string(),
        },
        Book {
            bids: Ladder::new(),
            asks: Ladder::new(),
            orders: Vec::new(),
            position: Position::default(),
            product: PRODUCT4.to_string(),
            station_id: Station::Index,
            expiry: EXPIRY.to_string(),
        },
    ];
    assert_eq!(
        find_arbs(&[&books[0], &books[1], &books[2], &books[3]], Price(0)),
        Vec::<AddMessage>::new(),
    );
}

#[test]
fn test_buy_index_sell_underlying_index_no_arbs() {
    let books = [
        Book {
            bids: ladder([(Price(700), Volume(20)), (Price(500), Volume(11))]),
            asks: ladder([(Price(1000), Volume(5)), (Price(1050), Volume(1))]),
            orders: Vec::new(),
            position: Position::default(),
            product: PRODUCT1.to_string(),
            station_id: Station::SydAirport,
            expiry: EXPIRY.to_string(),
        },
        Book {
            bids: ladder([(Price(200), Volume(6)), (Price(100), Volume(5))]),
            asks: ladder([
                (Price(300), Volume(1)),
                (Price(400), Volume(2)),
                (Price(500), Volume(2)),
                (Price(600), Volume(8)),
            ]),
            orders: Vec::new(),
            position: Position::default(),
            product: PRODUCT2.to_string(),
            station_id: Station::SydOlympicPark,
            expiry: EXPIRY.to_string(),
        },
        Book {
            bids: ladder([(Price(500), Volume(1)), (Price(300), Volume(8))]),
            asks: ladder([(Price(700), Volume(9)), (Price(800), Volume(1))]),
            orders: Vec::new(),
            position: Position::default(),
            product: PRODUCT3.to_string(),
            station_id: Station::CanberraAirport,
            expiry: EXPIRY.to_string(),
        },
        Book {
            bids: Ladder::new(),
            asks: ladder([(Price(10000), Volume(5))]),
            orders: Vec::new(),
            position: Position::default(),
            product: PRODUCT4.to_string(),
            station_id: Station::Index,
            expiry: EXPIRY.to_string(),
        },
    ];
    assert_eq!(
        find_arbs(&[&books[0], &books[1], &books[2], &books[3]], Price(0)),
        Vec::<AddMessage>::new(),
    );
}
