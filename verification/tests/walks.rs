use autotrader::arbitrage::{find_arbs, find_arbs_for_side, Strategy};
use autotrader::book::{Book, Position};
use autotrader::ladder::Ladder;
use autotrader::order::{AddMessage, MessageType, OrderType};
use autotrader::types::{Price, Side, Station, Volume};
use std::collections::BTreeMap;

/// A small generator of numbers that look random and are the same on every run.
struct Numbers(u64);

impl Numbers {
    fn next(&mut self, below: u64) -> u64 {
        self.0 = self.0.wrapping_mul(6364136223846793005).wrapping_add(1442695040888963407);
        (self.0 >> 33) % below
    }
}

type Levels = BTreeMap<u16, u16>;

fn levels(numbers: &mut Numbers, low: u64, high: u64) -> Levels {
    let mut levels = Levels::new();
    for _ in 0..numbers.next(5) {
        let price = (low + numbers.next(high - low)) as u16;
        let volume = (1 + numbers.next(6)) as u16;
        levels.insert(price, volume);
    }
    levels
}

fn ladder(levels: &Levels) -> Ladder {
    let mut ladder = Ladder::new();
    for (&price, &volume) in levels {
        assert!(ladder.add(Price(price), Volume(volume)));
    }
    ladder
}

fn book(product: &str, bids: &Levels, asks: &Levels) -> Book {
    Book {
        bids: ladder(bids),
        asks: ladder(asks),
        orders: Vec::new(),
        position: Position::default(),
        product: product.to_string(),
        station_id: Station::Index,
        expiry: String::new(),
    }
}

/// The walk, level by level: the underlyings are taken in chunks that end where a
/// level of one of them ends, and each chunk is traded against the levels of the
/// index for as long as the prices cross.
fn level_walk(
    underlyings: [&Levels; 3],
    index: &Levels,
    buy_underlyings: bool,
    edge: u32,
) -> Option<([u16; 3], u16, u32)> {
    let side = |levels: &Levels, ascending: bool| -> Vec<(u16, u16)> {
        let mut side: Vec<(u16, u16)> = levels.iter().map(|(&price, &volume)| (price, volume)).collect();
        if !ascending {
            side.reverse();
        }
        side
    };
    let legs: Vec<Vec<(u16, u16)>> =
        underlyings.iter().map(|levels| side(levels, buy_underlyings)).collect();
    let index = side(index, !buy_underlyings);
    let mut next = [0usize; 3];
    let mut left = [(0u16, 0u16); 3];
    let mut index_next = 0usize;
    let mut index_left = (0u16, 0u16);
    let mut index_volume = 0u32;
    let mut underlying_volume = 0u32;
    let mut prices = [0u16; 3];
    let mut index_price = 0u16;
    'outer: loop {
        for leg in 0..3 {
            if left[leg].1 == 0 {
                if next[leg] == legs[leg].len() {
                    break 'outer;
                }
                left[leg] = legs[leg][next[leg]];
                next[leg] += 1;
            }
        }
        let chunk = left.iter().map(|level| level.1).min().unwrap();
        let theo: u32 = left.iter().map(|level| level.0 as u32).sum();
        let mut theo_left = chunk;
        loop {
            if index_left.1 == 0 {
                if index_next == index.len() {
                    break 'outer;
                }
                index_left = index[index_next];
                index_next += 1;
            }
            let crosses = if buy_underlyings {
                theo + edge < index_left.0 as u32
            } else {
                theo > index_left.0 as u32 + edge
            };
            if !crosses {
                break 'outer;
            }
            index_price = index_left.0;
            let traded = theo_left.min(index_left.1);
            index_volume += traded as u32;
            theo_left -= traded;
            index_left.1 -= traded;
            if theo_left == 0 {
                underlying_volume += chunk as u32;
                for leg in 0..3 {
                    prices[leg] = left[leg].0;
                    left[leg].1 -= chunk;
                }
                break;
            }
        }
    }
    if index_volume != 0 && index_volume == underlying_volume {
        Some((prices, index_price, index_volume))
    } else {
        None
    }
}

/// The walk, unit by unit: every unit of every ladder is laid out with its price,
/// and the units are counted for as long as they cross.
fn unit_walk(
    underlyings: [&Levels; 3],
    index: &Levels,
    buy_underlyings: bool,
    edge: u32,
) -> Option<([u16; 3], u16, u32)> {
    let units = |levels: &Levels, ascending: bool| -> (Vec<u16>, Vec<usize>) {
        let mut side: Vec<(u16, u16)> = levels.iter().map(|(&price, &volume)| (price, volume)).collect();
        if !ascending {
            side.reverse();
        }
        let mut units = Vec::new();
        let mut ends = Vec::new();
        for (price, volume) in side {
            units.extend(std::iter::repeat(price).take(volume as usize));
            ends.push(units.len());
        }
        (units, ends)
    };
    let legs: Vec<(Vec<u16>, Vec<usize>)> =
        underlyings.iter().map(|levels| units(levels, buy_underlyings)).collect();
    let (index, _) = units(index, !buy_underlyings);
    let available = legs.iter().map(|leg| leg.0.len()).min().unwrap().min(index.len());
    let mut matched = 0;
    while matched < available {
        let theo: u32 = legs.iter().map(|leg| leg.0[matched] as u32).sum();
        let crosses = if buy_underlyings {
            theo + edge < index[matched] as u32
        } else {
            theo > index[matched] as u32 + edge
        };
        if !crosses {
            break;
        }
        matched += 1;
    }
    if matched > 0 && legs.iter().any(|leg| leg.1.contains(&matched)) {
        let last = matched - 1;
        Some(([legs[0].0[last], legs[1].0[last], legs[2].0[last]], index[last], matched as u32))
    } else {
        None
    }
}

fn expected(found: Option<([u16; 3], u16, u32)>, buy_underlyings: bool) -> Vec<AddMessage> {
    let (underlying_side, index_side) =
        if buy_underlyings { (Side::Buy, Side::Sell) } else { (Side::Sell, Side::Buy) };
    match found {
        None => Vec::new(),
        Some((prices, index_price, volume)) => {
            let order = |product: &str, price: u16, side: Side| AddMessage {
                message_type: MessageType::Add,
                product: product.to_string(),
                price: Price(price),
                side,
                volume: Volume(volume as u16),
                order_type: OrderType::Ioc,
            };
            vec![
                order("1", prices[0], underlying_side),
                order("2", prices[1], underlying_side),
                order("3", prices[2], underlying_side),
                order("4", index_price, index_side),
            ]
        }
    }
}

#[test]
fn test_walks_agree() {
    let mut numbers = Numbers(20240104);
    let mut baskets = 0;
    for _ in 0..20000 {
        let bids: Vec<Levels> = (0..3).map(|_| levels(&mut numbers, 90, 110)).collect();
        let asks: Vec<Levels> = (0..3).map(|_| levels(&mut numbers, 95, 115)).collect();
        let index_bids = levels(&mut numbers, 290, 330);
        let index_asks = levels(&mut numbers, 280, 320);
        let edge = numbers.next(8) as u32;
        let books = [
            book("1", &bids[0], &asks[0]),
            book("2", &bids[1], &asks[1]),
            book("3", &bids[2], &asks[2]),
            book("4", &index_bids, &index_asks),
        ];
        let index = [&books[0], &books[1], &books[2], &books[3]];

        let buy = level_walk([&asks[0], &asks[1], &asks[2]], &index_bids, true, edge);
        assert_eq!(buy, unit_walk([&asks[0], &asks[1], &asks[2]], &index_bids, true, edge));
        let buy = expected(buy, true);
        assert_eq!(
            find_arbs_for_side(&index, Strategy::BuyUnderlyingSellIndex, Price(edge as u16)),
            buy,
        );

        let sell = level_walk([&bids[0], &bids[1], &bids[2]], &index_asks, false, edge);
        assert_eq!(sell, unit_walk([&bids[0], &bids[1], &bids[2]], &index_asks, false, edge));
        let sell = expected(sell, false);
        assert_eq!(
            find_arbs_for_side(&index, Strategy::BuyIndexSellUnderlying, Price(edge as u16)),
            sell,
        );

        let both = find_arbs(&index, Price(edge as u16));
        assert_eq!(both, if buy.is_empty() { sell } else { buy });
        if !both.is_empty() {
            baskets += 1;
        }
    }
    assert!(baskets > 1000);
}
