use vstd::prelude::*;

verus! {

/// Index of a transaction inside its block.
pub type TxIdx = usize;

/// Hash of a memory location (an account's basic data or one storage slot).
pub type MemoryLocationHash = u64;

/// Incarnation number of a transaction (how many times it re-executed).
pub type TxIncarnation = usize;

/// A counter after one wrapping increment (as an atomic `fetch_add` leaves it).
pub open spec fn wrap_inc(n: nat) -> nat {
    if n >= usize::MAX {
        0
    } else {
        n + 1
    }
}

/// A counter after one wrapping decrement (as an atomic `fetch_sub` leaves it).
pub open spec fn wrap_dec(n: nat) -> nat {
    if n == 0 {
        usize::MAX as nat
    } else {
        (n - 1) as nat
    }
}

pub fn wrapping_inc(n: usize) -> (r: usize)
    ensures
        r == wrap_inc(n as nat),
{
    if n == usize::MAX {
        0
    } else {
        n + 1
    }
}

pub fn wrapping_dec(n: usize) -> (r: usize)
    ensures
        r == wrap_dec(n as nat),
{
    if n == 0 {
        usize::MAX
    } else {
        n - 1
    }
}

/// One execution of one transaction.
#[derive(Debug, Clone, Copy, PartialEq, Eq, Structural)]
pub struct TxVersion {
    pub tx_idx: TxIdx,
    pub tx_incarnation: TxIncarnation,
}

/// A 20-byte account address, held as three big-endian limbs.
#[derive(Debug, Clone, Copy, PartialEq, Eq, Structural)]
pub struct Addr {
    pub hi: u64,
    pub mid: u64,
    pub lo: u32,
}

impl Addr {
    /// The 160-bit integer that the address stands for.
    pub open spec fn value(self) -> nat {
        self.hi as nat * 0x1_0000_0000_0000_0000 * 0x1_0000_0000 + self.mid as nat * 0x1_0000_0000
            + self.lo as nat
    }
}

/// A 256-bit word, held as four little-endian 64-bit limbs.
#[derive(Debug, Clone, Copy, PartialEq, Eq, Structural)]
pub struct Word256 {
    pub l0: u64,
    pub l1: u64,
    pub l2: u64,
    pub l3: u64,
}

impl Word256 {
    /// The integer that the four limbs stand for.
    pub open spec fn value(self) -> nat {
        self.l0 as nat + self.l1 as nat * 0x1_0000_0000_0000_0000
            + self.l2 as nat * 0x1_0000_0000_0000_0000 * 0x1_0000_0000_0000_0000
            + self.l3 as nat * 0x1_0000_0000_0000_0000 * 0x1_0000_0000_0000_0000
            * 0x1_0000_0000_0000_0000
    }

    pub fn zero() -> (r: Word256)
        ensures
            r.value() == 0,
    {
        Word256 { l0: 0, l1: 0, l2: 0, l3: 0 }
    }

    /// The address held in the low 160 bits of the word.
    pub fn to_address(&self) -> (r: Addr)
        ensures
            r.value() == self.value() % (0x1_0000_0000_0000_0000 * 0x1_0000_0000_0000_0000
                * 0x1_0000_0000),
    {
        let l0 = self.l0;
        let l1 = self.l1;
        let l2 = self.l2;
        let hi: u64 = ((l2 & 0xffff_ffff) << 32) | (l1 >> 32);
        let mid: u64 = ((l1 & 0xffff_ffff) << 32) | (l0 >> 32);
        let lo: u32 = (l0 & 0xffff_ffff) as u32;
        proof {
            assert(hi == (l2 % 0x1_0000_0000) * 0x1_0000_0000 + l1 / 0x1_0000_0000) by (bit_vector)
                requires
                    hi == ((l2 & 0xffff_ffff) << 32) | (l1 >> 32),
            ;
            assert(mid == (l1 % 0x1_0000_0000) * 0x1_0000_0000 + l0 / 0x1_0000_0000) by (bit_vector)
                requires
                    mid == ((l1 & 0xffff_ffff) << 32) | (l0 >> 32),
            ;
            assert(lo == l0 % 0x1_0000_0000) by (bit_vector)
                requires
                    lo == (l0 & 0xffff_ffff) as u32,
            ;
            lemma_low_160(self.l0 as int, self.l1 as int, self.l2 as int, self.l3 as int);
        }
        Addr { hi, mid, lo }
    }

    /// True when the word is zero.
    pub fn is_zero(&self) -> (r: bool)
        ensures
            r == (self.value() == 0),
    {
        let z = self.l0 == 0 && self.l1 == 0 && self.l2 == 0 && self.l3 == 0;
        proof {
            if !z {
                assert(self.value() > 0) by (nonlinear_arith)
                    requires
                        !(self.l0 == 0 && self.l1 == 0 && self.l2 == 0 && self.l3 == 0),
                        self.value() == self.l0 as nat + self.l1 as nat * 0x1_0000_0000_0000_0000
                            + self.l2 as nat * 0x1_0000_0000_0000_0000 * 0x1_0000_0000_0000_0000
                            + self.l3 as nat * 0x1_0000_0000_0000_0000 * 0x1_0000_0000_0000_0000
                            * 0x1_0000_0000_0000_0000,
                ;
            }
        }
        z
    }
}

/// The low 160 bits of a four-limb word, regrouped as an address's limbs.
proof fn lemma_low_160(l0: int, l1: int, l2: int, l3: int)
    requires
        0 <= l0 < 0x1_0000_0000_0000_0000int,
        0 <= l1 < 0x1_0000_0000_0000_0000int,
        0 <= l2 < 0x1_0000_0000_0000_0000int,
        0 <= l3 < 0x1_0000_0000_0000_0000int,
    ensures
        ((l2 % 0x1_0000_0000int) * 0x1_0000_0000int + l1 / 0x1_0000_0000int) * 0x1_0000_0000_0000_0000int
            * 0x1_0000_0000int + ((l1 % 0x1_0000_0000int) * 0x1_0000_0000int + l0 / 0x1_0000_0000int)
            * 0x1_0000_0000int + l0 % 0x1_0000_0000int == (l0 + l1 * 0x1_0000_0000_0000_0000int + l2
            * 0x1_0000_0000_0000_0000int * 0x1_0000_0000_0000_0000int + l3 * 0x1_0000_0000_0000_0000int
            * 0x1_0000_0000_0000_0000int * 0x1_0000_0000_0000_0000int) % (0x1_0000_0000_0000_0000int
            * 0x1_0000_0000_0000_0000int * 0x1_0000_0000int),
{
    let b32: int = 0x1_0000_0000;
    let b64: int = 0x1_0000_0000_0000_0000;
    let m: int = b64 * b64 * b32;
    assert(l0 == (l0 / b32) * b32 + l0 % b32) by (nonlinear_arith)
        requires b32 > 0;
    assert(l1 == (l1 / b32) * b32 + l1 % b32) by (nonlinear_arith)
        requires b32 > 0;
    assert(l2 == (l2 / b32) * b32 + l2 % b32) by (nonlinear_arith)
        requires b32 > 0;
    let low = l0 + l1 * b64 + (l2 % b32) * b64 * b64;
    let full = l0 + l1 * b64 + l2 * b64 * b64 + l3 * b64 * b64 * b64;
    assert(full == low + ((l2 / b32) + l3 * b32) * m) by (nonlinear_arith)
        requires
            l2 == (l2 / b32) * b32 + l2 % b32,
            b64 == b32 * b32,
            m == b64 * b64 * b32,
            low == l0 + l1 * b64 + (l2 % b32) * b64 * b64,
            full == l0 + l1 * b64 + l2 * b64 * b64 + l3 * b64 * b64 * b64;
    assert(0 <= low < m) by (nonlinear_arith)
        requires
            0 <= l0 < b64,
            0 <= l1 < b64,
            0 <= l2 % b32 < b32,
            b64 == b32 * b32,
            m == b64 * b64 * b32,
            low == l0 + l1 * b64 + (l2 % b32) * b64 * b64;
    assert(l2 / b32 >= 0 && l3 >= 0) by (nonlinear_arith)
        requires l2 >= 0, l3 >= 0, b32 > 0;
    vstd::arithmetic::div_mod::lemma_mod_multiples_vanish((l2 / b32) + l3 * b32, low, m);
    vstd::arithmetic::div_mod::lemma_small_mod(low as nat, m as nat);
    assert(((l2 % b32) * b32 + l1 / b32) * b64 * b32 + ((l1 % b32) * b32 + l0 / b32) * b32 + l0
        % b32 == low) by (nonlinear_arith)
        requires
            l0 == (l0 / b32) * b32 + l0 % b32,
            l1 == (l1 / b32) * b32 + l1 % b32,
            b64 == b32 * b32,
            low == l0 + l1 * b64 + (l2 % b32) * b64 * b64;
}


/// Balance and nonce of an account.
#[derive(Debug, Clone, Copy, PartialEq, Eq, Structural)]
pub struct AccountBasic {
    pub balance: Word256,
    pub nonce: u64,
}

/// A value written to a memory location.
#[derive(Debug, Clone, Copy, PartialEq, Eq, Structural)]
pub enum MemoryValue {
    Basic(AccountBasic),
    CodeHash(Word256),
    Storage(Word256),
    /// A balance addition not yet applied (a raw transfer's recipient or the beneficiary).
    LazyRecipient(Word256),
    /// A balance subtraction not yet applied (a raw transfer's sender).
    LazySender(Word256),
    SelfDestructed,
}

/// One version of a location: data written by an incarnation, or an
/// estimate left by an aborted one.
#[derive(Debug, Clone, Copy, PartialEq, Eq, Structural)]
pub enum MemoryEntry {
    Data(TxIncarnation, MemoryValue),
    Estimate,
}

/// Where a read found its value: a version of the multi-version memory
/// (with the value it read), or the block's base storage.
#[derive(Debug, Clone, Copy, PartialEq, Eq, Structural)]
pub enum ReadOrigin {
    MvMemory(TxVersion, MemoryValue),
    Storage,
}

impl ReadOrigin {
    pub fn mv(tx_idx: TxIdx, tx_incarnation: TxIncarnation, value: MemoryValue) -> (r: Self)
        ensures
            r == ReadOrigin::MvMemory(TxVersion { tx_idx, tx_incarnation }, value),
    {
        ReadOrigin::MvMemory(TxVersion { tx_idx, tx_incarnation }, value)
    }
}

} // verus!
