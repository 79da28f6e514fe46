//! Price levels and their reading from pairs of decimal text.

use crate::decimal::{amount_of, parse_amount, DecimalError};
use vstd::prelude::*;
use vstd::utf8::encode_utf8;

verus! {

/// The two sides of a book.
#[derive(Clone, Copy, Debug, PartialEq, Eq, Structural)]
pub enum Side {
    Bid,
    Ask,
}

/// A price and the quantity resting at it, both in hundred-millionths.
#[derive(Clone, Copy, Debug, PartialEq, Eq, Structural)]
pub struct PriceLevel {
    pub price: u64,
    pub quantity: u64,
}

/// The two fields of a level as it arrives.
#[derive(Clone, Copy, Debug, PartialEq, Eq, Structural)]
pub enum LevelField {
    Price,
    Quantity,
}

/// The first level of a list that could not be read, and why.
#[derive(Clone, Copy, Debug, PartialEq, Eq, Structural)]
pub struct MalformedLevelError {
    pub side: Side,
    pub index: usize,
    pub field: LevelField,
    pub reason: DecimalError,
}

/// The level that a pair of texts denotes, price first; a malformed price is
/// reported before a malformed quantity.
pub open spec fn level_of(raw: [String; 2]) -> Result<PriceLevel, (LevelField, DecimalError)> {
    match amount_of(encode_utf8(raw[0]@)) {
        Err(reason) => Err((LevelField::Price, reason)),
        Ok(price) => match amount_of(encode_utf8(raw[1]@)) {
            Err(reason) => Err((LevelField::Quantity, reason)),
            Ok(quantity) => Ok(PriceLevel { price, quantity }),
        },
    }
}

pub open spec fn malformed_at(raw: Seq<[String; 2]>, i: int) -> bool {
    0 <= i < raw.len() && level_of(raw[i]) is Err
}

pub open spec fn well_formed(raw: Seq<[String; 2]>) -> bool {
    forall|i: int| !malformed_at(raw, i)
}

/// `i` is the least index of a malformed level.
pub open spec fn is_first_malformed(raw: Seq<[String; 2]>, i: int) -> bool {
    malformed_at(raw, i) && forall|j: int| 0 <= j < i ==> !malformed_at(raw, j)
}

pub open spec fn first_malformed(raw: Seq<[String; 2]>) -> int {
    choose|i: int| is_first_malformed(raw, i)
}

/// The levels that a list of pairs denotes, in order, or its first malformed
/// entry.
pub open spec fn levels_of(raw: Seq<[String; 2]>, side: Side) -> Result<
    Seq<PriceLevel>,
    MalformedLevelError,
> {
    if well_formed(raw) {
        Ok(Seq::new(raw.len(), |i: int| level_of(raw[i])->Ok_0))
    } else {
        let i = first_malformed(raw);
        Err(
            MalformedLevelError {
                side,
                index: i as usize,
                field: level_of(raw[i])->Err_0.0,
                reason: level_of(raw[i])->Err_0.1,
            },
        )
    }
}

/// Only one index can be the least malformed one.
proof fn lemma_first_malformed_unique(raw: Seq<[String; 2]>, i: int)
    requires
        is_first_malformed(raw, i),
    ensures
        first_malformed(raw) == i,
        !well_formed(raw),
{
    let k = first_malformed(raw);
    assert(is_first_malformed(raw, k));
    if k < i {
        assert(!malformed_at(raw, k));
    }
    if i < k {
        assert(!malformed_at(raw, i));
    }
}

/// Reads one level from its two texts.
pub fn parse_level(raw: &[String; 2]) -> (r: Result<PriceLevel, (LevelField, DecimalError)>)
    ensures
        r == level_of(*raw),
{
    let price: u64 = match parse_amount(raw[0].as_str()) {
        Ok(price) => price,
        Err(reason) => {
            return Err((LevelField::Price, reason));
        },
    };
    match parse_amount(raw[1].as_str()) {
        Ok(quantity) => Ok(PriceLevel { price, quantity }),
        Err(reason) => Err((LevelField::Quantity, reason)),
    }
}

/// Reads a list of levels, stopping at the first one that is malformed.
pub fn parse_levels(raw: &Vec<[String; 2]>, side: Side) -> (r: Result<
    Vec<PriceLevel>,
    MalformedLevelError,
>)
    ensures
        match r {
            Ok(levels) => levels_of(raw@, side) == Ok::<Seq<PriceLevel>, MalformedLevelError>(
                levels@,
            ),
            Err(e) => levels_of(raw@, side) == Err::<Seq<PriceLevel>, MalformedLevelError>(e),
        },
{
    let mut levels: Vec<PriceLevel> = Vec::new();
    let mut i: usize = 0;
    while i < raw.len()
        invariant
            i <= raw.len(),
            levels@.len() == i,
            forall|j: int| 0 <= j < i ==> !malformed_at(raw@, j),
            forall|j: int| 0 <= j < i ==> levels@[j] == level_of(#[trigger] raw@[j])->Ok_0,
        decreases raw.len() - i,
    {
        match parse_level(&raw[i]) {
            Ok(level) => {
                levels.push(level);
            },
            Err((field, reason)) => {
                proof {
                    lemma_first_malformed_unique(raw@, i as int);
                }
                return Err(MalformedLevelError { side, index: i, field, reason });
            },
        }
        i += 1;
    }
    assert(levels@ == Seq::new(raw@.len(), |i: int| level_of(raw@[i])->Ok_0));
    Ok(levels)
}

} // verus!
