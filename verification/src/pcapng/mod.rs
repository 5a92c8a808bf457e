//! pcapng (IETF draft-ietf-opsawg-pcapng) reading and writing, hand-written
//! against the block layout: Section Header, Interface Description (with
//! `if_tsresol`), Enhanced and Simple Packet blocks. Unknown blocks are
//! skipped on read.

use vstd::prelude::*;

pub mod layout;
pub mod reader;
pub mod writer;

pub use reader::{read, ReadError, Section};
pub use writer::Writer;

verus! {

pub const BLOCK_SHB: u32 = 0x0A0D_0D0A;

pub const BLOCK_IDB: u32 = 0x0000_0001;

pub const BLOCK_EPB: u32 = 0x0000_0006;

pub const BLOCK_SPB: u32 = 0x0000_0003;

pub const BYTE_ORDER_MAGIC: u32 = 0x1A2B_3C4D;

pub const OPT_ENDOFOPT: u16 = 0;

pub const OPT_COMMENT: u16 = 1;

pub const OPT_IF_NAME: u16 = 2;

pub const OPT_IF_TSRESOL: u16 = 9;

pub const OPT_SHB_USERAPPL: u16 = 4;

/// An interface as described by an IDB.
#[derive(Debug, PartialEq, Eq)]
pub struct Interface {
    pub link_type: u16,
    pub snaplen: u32,
    pub name: Option<String>,
    /// Timestamp units per second (10^6 for the default 6, 10^9 for 9).
    pub ts_per_sec: u64,
}

/// What an interface is described as.
#[verifier::ext_equal]
pub struct InterfaceView {
    pub link_type: u16,
    pub snaplen: u32,
    pub name: Option<Seq<char>>,
    pub ts_per_sec: u64,
}

/// The characters of a string that may be absent.
pub open spec fn chars_of(s: Option<String>) -> Option<Seq<char>> {
    match s {
        Some(s) => Some(s@),
        None => None,
    }
}

impl View for Interface {
    type V = InterfaceView;

    open spec fn view(&self) -> InterfaceView {
        InterfaceView {
            link_type: self.link_type,
            snaplen: self.snaplen,
            name: chars_of(self.name),
            ts_per_sec: self.ts_per_sec,
        }
    }
}

/// `base` to the power of `n`.
pub open spec fn power(base: int, n: int) -> int
    decreases n,
{
    if n <= 0 {
        1
    } else {
        base * power(base, n - 1)
    }
}

proof fn lemma_power_grows(base: int, m: int, n: int)
    requires
        1 <= base,
        m <= n,
    ensures
        1 <= power(base, m) <= power(base, n),
    decreases n - m, n,
{
    if n <= 0 {
    } else if m == n {
        lemma_power_grows(base, n - 1, n - 1);
        assert(base * power(base, n - 1) >= 1) by (nonlinear_arith)
            requires
                base >= 1,
                power(base, n - 1) >= 1,
        ;
    } else {
        lemma_power_grows(base, m, n - 1);
        assert(base * power(base, n - 1) >= power(base, n - 1)) by (nonlinear_arith)
            requires
                base >= 1,
                power(base, n - 1) >= 1,
        ;
    }
}

fn raise(base: u64, n: u64, Ghost(most): Ghost<int>) -> (r: u64)
    requires
        1 <= base,
        n <= most,
        power(base as int, most) <= u64::MAX,
    ensures
        r == power(base as int, n as int),
        r >= 1,
{
    let mut v: u64 = 1;
    let mut i: u64 = 0;
    while i < n
        invariant
            1 <= base,
            i <= n <= most,
            power(base as int, most) <= u64::MAX,
            v == power(base as int, i as int),
            v >= 1,
        decreases n - i,
    {
        proof {
            lemma_power_grows(base as int, i + 1, most);
            assert(v * base == base * power(base as int, i as int)) by (nonlinear_arith)
                requires
                    v == power(base as int, i as int),
            ;
        }
        v = v * base;
        i += 1;
    }
    v
}

/// The timestamp units per second that `if_tsresol` stands for: high bit set
/// means base 2, else base 10, as far as 64 bits hold it.
pub open spec fn units_of(tsresol: u8) -> int {
    if tsresol >= 0x80 {
        power(
            2,
            if tsresol - 0x80 > 63 {
                63
            } else {
                tsresol - 0x80
            },
        )
    } else {
        power(
            10,
            if tsresol > 19 {
                19
            } else {
                tsresol as int
            },
        )
    }
}

proof fn lemma_largest_units()
    ensures
        power(2, 63) <= u64::MAX,
        power(10, 19) <= u64::MAX,
{
    reveal_with_fuel(power, 65);
}

impl Interface {
    /// Decode `if_tsresol`: high bit set means base 2, else base 10.
    pub fn ts_per_sec_from_tsresol(tsresol: u8) -> (r: u64)
        ensures
            r == units_of(tsresol),
            r >= 1,
    {
        proof {
            lemma_largest_units();
        }
        if tsresol >= 0x80 {
            let e: u8 = tsresol - 0x80;
            raise(
                2,
                if e > 63 {
                    63
                } else {
                    e as u64
                },
                Ghost(63),
            )
        } else {
            raise(
                10,
                if tsresol > 19 {
                    19
                } else {
                    tsresol as u64
                },
                Ghost(19),
            )
        }
    }
}

/// `len` up to a multiple of four.
pub open spec fn padded_len(len: int) -> int {
    (len + 3) / 4 * 4
}

/// Pad `len` up to a multiple of four.
pub fn pad4(len: usize) -> (r: usize)
    requires
        len + 3 <= usize::MAX,
    ensures
        r == padded_len(len as int),
        r % 4 == 0,
        len <= r < len + 4,
{
    (len + 3) / 4 * 4
}

} // verus!
