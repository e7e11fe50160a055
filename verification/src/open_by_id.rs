//! Reading size and times of a file by its identifier.
use vstd::prelude::*;
use crate::mft;

verus! {

/// How a file is opened.
#[derive(Debug, Clone, Copy, PartialEq, Eq)]
pub enum OpenBy {
    /// By its 64-bit number.
    Number(u64),
    /// By its 128-bit identifier.
    Identifier([u8; 16]),
}

/// The ways to open a file, in order: its number first, its identifier where it has one.
pub fn ways_to_open(frn: u64, id: Option<[u8; 16]>) -> (r: Vec<OpenBy>)
    ensures
        r@ == (match id {
            Some(b) => seq![OpenBy::Number(frn), OpenBy::Identifier(b)],
            None => seq![OpenBy::Number(frn)],
        }),
{
    let mut v: Vec<OpenBy> = Vec::new();
    v.push(OpenBy::Number(frn));
    match id {
        Some(b) => {
            v.push(OpenBy::Identifier(b));
        },
        None => {},
    }
    assert(v@ =~= match id {
        Some(b) => seq![OpenBy::Number(frn), OpenBy::Identifier(b)],
        None => seq![OpenBy::Number(frn)],
    });
    v
}

/// What the system says of an open file: sizes and times come in halves.
#[derive(Debug, Clone, Copy, PartialEq, Eq, Structural)]
pub struct HandleInfo {
    pub size_high: u32,
    pub size_low: u32,
    pub write_high: u32,
    pub write_low: u32,
    pub creation_high: u32,
    pub creation_low: u32,
}

pub open spec fn joined_halves(high: u32, low: u32) -> int {
    high * 0x1_0000_0000 + low
}

/// What an open file says of itself.
pub open spec fn file_facts(h: HandleInfo) -> (u64, u64, u64) {
    (
        joined_halves(h.size_high, h.size_low) as u64,
        joined_halves(h.write_high, h.write_low) as u64,
        joined_halves(h.creation_high, h.creation_low) as u64,
    )
}

/// Size, modification and creation time of a file that could be opened and read.
pub fn fetch_file_metadata_by_id(info: Option<HandleInfo>) -> (r: Option<(u64, u64, u64)>)
    ensures
        match info {
            Some(h) => r matches Some(m) && m.0 == joined_halves(h.size_high, h.size_low) && m.1
                == joined_halves(h.write_high, h.write_low) && m.2 == joined_halves(
                h.creation_high,
                h.creation_low,
            ),
            None => r is None,
        },
        info matches Some(h) ==> r == Some(file_facts(h)),
{
    match info {
        Some(h) => Some(
            (
                mft::combine(h.size_high, h.size_low),
                mft::combine(h.write_high, h.write_low),
                mft::combine(h.creation_high, h.creation_low),
            ),
        ),
        None => None,
    }
}

/// Of the size and of each time the upper half stands above the lower one; the size comes first,
/// then the last change, then the creation.
pub proof fn law_facts_of_a_file(h: HandleInfo)
    ensures
        file_facts(h).0 / 0x1_0000_0000 == h.size_high,
        file_facts(h).0 % 0x1_0000_0000 == h.size_low,
        file_facts(h).1 / 0x1_0000_0000 == h.write_high,
        file_facts(h).1 % 0x1_0000_0000 == h.write_low,
        file_facts(h).2 / 0x1_0000_0000 == h.creation_high,
        file_facts(h).2 % 0x1_0000_0000 == h.creation_low,
{
}

} // verus!
