//! Prices as the exchange writes them: decimal numbers with up to two digits after
//! the point, such as `24.31`, `28.9` or `0`.

use crate::types::Price;
use vstd::prelude::*;

verus! {

/// Whether a byte is a decimal digit.
pub open spec fn is_digit(byte: u8) -> bool {
    48 <= byte <= 57
}

/// Whether every byte is a decimal digit.
pub open spec fn all_digits(text: Seq<u8>) -> bool {
    forall|i: int| 0 <= i < text.len() ==> is_digit(#[trigger] text[i])
}

/// The number that decimal digits write.
pub open spec fn digits_value(text: Seq<u8>) -> int
    decreases text.len(),
{
    if text.len() == 0 {
        0
    } else {
        digits_value(text.drop_last()) * 10 + (text.last() - 48)
    }
}

/// How many of the last bytes are the point and the digits after it: none where
/// the text has no point in the last three places.
pub open spec fn fraction_length(text: Seq<u8>) -> int {
    let n = text.len() as int;
    if n >= 2 && text[n - 2] == 46 {
        2
    } else if n >= 3 && text[n - 3] == 46 {
        3
    } else {
        0
    }
}

/// The hundredths that a decimal number writes: its digits before the point count
/// a hundred each, the first digit after the point ten and the second one.
pub open spec fn hundredths_of(text: Seq<u8>) -> int {
    let n = text.len() as int;
    let cut = fraction_length(text);
    digits_value(text.take(n - cut)) * 100 + if cut == 2 {
        (text[n - 1] - 48) * 10
    } else if cut == 3 {
        (text[n - 2] - 48) * 10 + (text[n - 1] - 48)
    } else {
        0
    }
}

/// Whether the text is a decimal number with one or two digits after the point,
/// or none and no point: digits, at least one of them before the point, and
/// nothing else.
pub open spec fn is_decimal(text: Seq<u8>) -> bool {
    let n = text.len() as int;
    let cut = fraction_length(text);
    &&& n - cut >= 1
    &&& all_digits(text.take(n - cut))
    &&& cut >= 2 ==> is_digit(text[n - cut + 1])
    &&& cut == 3 ==> is_digit(text[n - 1])
}

/// The price that a text writes, if it writes one: a decimal number of at most
/// 655.35.
pub open spec fn parsed(text: Seq<u8>) -> Option<Price> {
    if is_decimal(text) && hundredths_of(text) <= u16::MAX {
        Some(Price(hundredths_of(text) as u16))
    } else {
        None
    }
}

/// The text that writes a price: its whole units, the point, and two digits.
pub open spec fn formatted(price: Price) -> Seq<u8> {
    let units = price.0 / 100;
    let rest = price.0 % 100;
    let head: Seq<u8> = if units < 10 {
        seq![(48 + units) as u8]
    } else if units < 100 {
        seq![(48 + units / 10) as u8, (48 + units % 10) as u8]
    } else {
        seq![(48 + units / 100) as u8, (48 + units / 10 % 10) as u8, (48 + units % 10) as u8]
    };
    head + seq![46u8, (48 + rest / 10) as u8, (48 + rest % 10) as u8]
}

/// Digits never write a negative number, and more digits never write less.
proof fn lemma_digits_grow(text: Seq<u8>, shorter: int)
    requires
        all_digits(text),
        0 <= shorter <= text.len(),
    ensures
        0 <= digits_value(text.take(shorter)) <= digits_value(text),
    decreases text.len() - shorter,
{
    if shorter == text.len() {
        assert(text.take(shorter) =~= text);
        lemma_digits_nonnegative(text);
    } else {
        lemma_digits_grow(text, shorter + 1);
        assert(text.take(shorter + 1).drop_last() =~= text.take(shorter));
        assert(is_digit(text[shorter]));
        assert(text.take(shorter + 1).last() == text[shorter]);
        lemma_digits_nonnegative(text.take(shorter));
    }
}

proof fn lemma_digits_nonnegative(text: Seq<u8>)
    requires
        all_digits(text),
    ensures
        0 <= digits_value(text),
    decreases text.len(),
{
    if text.len() > 0 {
        assert(is_digit(text[text.len() - 1]));
        assert forall|i: int| 0 <= i < text.drop_last().len() implies is_digit(
            #[trigger] text.drop_last()[i],
        ) by {
            assert(text.drop_last()[i] == text[i]);
        }
        lemma_digits_nonnegative(text.drop_last());
    }
}

/// Reading a written price gives the price back.
pub proof fn lemma_price_round_trip(price: Price)
    ensures
        parsed(formatted(price)) == Some(price),
{
    let text = formatted(price);
    let units = price.0 / 100;
    let n = text.len() as int;
    reveal_with_fuel(digits_value, 4);
    assert(fraction_length(text) == 3);
    let head = text.take(n - 3);
    if units < 10 {
        assert(head =~= seq![(48 + units) as u8]);
        assert(head.drop_last() =~= Seq::<u8>::empty());
    } else if units < 100 {
        assert(head =~= seq![(48 + units / 10) as u8, (48 + units % 10) as u8]);
        assert(head.drop_last() =~= seq![(48 + units / 10) as u8]);
        assert(head.drop_last().drop_last() =~= Seq::<u8>::empty());
    } else {
        assert(head =~= seq![
            (48 + units / 100) as u8,
            (48 + units / 10 % 10) as u8,
            (48 + units % 10) as u8,
        ]);
        assert(head.drop_last() =~= seq![(48 + units / 100) as u8, (48 + units / 10 % 10) as u8]);
        assert(head.drop_last().drop_last() =~= seq![(48 + units / 100) as u8]);
        assert(head.drop_last().drop_last().drop_last() =~= Seq::<u8>::empty());
    }
    assert(digits_value(head) == units);
    assert(hundredths_of(text) == price.0);
}

/// Writes a price as the exchange does: the whole units, the point, and two
/// digits.
pub fn format_price(price: Price) -> (text: Vec<u8>)
    ensures
        text@ == formatted(price),
        parsed(text@) == Some(price),
{
    let units: u16 = price.0 / 100;
    let rest: u16 = price.0 % 100;
    let mut text: Vec<u8> = Vec::new();
    if units >= 100 {
        text.push((48 + units / 100) as u8);
    }
    if units >= 10 {
        text.push((48 + units / 10 % 10) as u8);
    }
    text.push((48 + units % 10) as u8);
    text.push(46);
    text.push((48 + rest / 10) as u8);
    text.push((48 + rest % 10) as u8);
    proof {
        assert(text@ =~= formatted(price));
        lemma_price_round_trip(price);
    }
    text
}

/// Reads a price as the exchange writes it. `None` where the text is no decimal
/// number of up to two digits after the point, or where the number is above
/// 655.35, the largest price.
pub fn parse_price(text: &[u8]) -> (price: Option<Price>)
    ensures
        price == parsed(text@),
{
    let n: usize = text.len();
    let cut: usize = if n >= 2 && text[n - 2] == 46 {
        2
    } else if n >= 3 && text[n - 3] == 46 {
        3
    } else {
        0
    };
    if n < cut + 1 {
        return None;
    }
    let ghost head = text@.take(n - cut);
    let mut value: u32 = 0;
    let mut i: usize = 0;
    while i < n - cut
        invariant
            i <= n - cut,
            n == text@.len(),
            cut == fraction_length(text@),
            head == text@.take(n - cut),
            all_digits(head.take(i as int)),
            value == digits_value(head.take(i as int)),
            value <= 655,
        decreases n - cut - i,
    {
        let byte: u8 = text[i];
        if byte < 48 || byte > 57 {
            proof {
                assert(head[i as int] == byte);
                assert(!all_digits(head));
            }
            return None;
        }
        proof {
            assert(head.take(i + 1).drop_last() =~= head.take(i as int));
            assert(head.take(i + 1).last() == byte);
            assert forall|j: int| 0 <= j < i + 1 implies is_digit(
                #[trigger] head.take(i + 1)[j],
            ) by {
                if j < i {
                    assert(head.take(i as int)[j] == head.take(i + 1)[j]);
                }
            }
        }
        let next: u32 = value * 10 + (byte - 48) as u32;
        if next > 655 {
            proof {
                // The digits read so far already write more than the largest
                // price, and the digits that follow can only add to it.
                if is_decimal(text@) {
                    lemma_digits_grow(head, i + 1);
                    assert(digits_value(head) >= 656);
                    assert(hundredths_of(text@) >= 65600);
                }
            }
            return None;
        }
        value = next;
        i += 1;
    }
    proof {
        assert(head.take(i as int) =~= head);
    }
    let mut rest: u32 = 0;
    if cut >= 2 {
        let tens: u8 = text[n - cut + 1];
        if tens < 48 || tens > 57 {
            return None;
        }
        rest = (tens - 48) as u32 * 10;
        if cut == 3 {
            let ones: u8 = text[n - 1];
            if ones < 48 || ones > 57 {
                return None;
            }
            rest = rest + (ones - 48) as u32;
        }
    }
    let hundredths: u32 = value * 100 + rest;
    if hundredths > 65535 {
        return None;
    }
    Some(Price(hundredths as u16))
}

} // verus!
