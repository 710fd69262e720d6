//! The generic tape: a pointer into an array of cells, with wrapping
//! pointer movement and wrapping cell arithmetic. Pointer and cell
//! widths are chosen independently from a small closed set.

use vstd::prelude::*;

verus! {

/// Sixteen raised to a power; the number of values `n` hexadecimal
/// digits can show.
pub open spec fn pow16(n: nat) -> nat
    decreases n,
{
    if n == 0 {
        1
    } else {
        16 * pow16((n - 1) as nat)
    }
}

/// An unsigned machine word of some fixed width: its value is always
/// below the width's modulus, and stepping up or down wraps around.
pub trait TapeWord: Sized + Copy {
    /// The number of distinct values of this width.
    spec fn modulus() -> nat;

    /// The numeric value.
    spec fn as_nat(self) -> nat;

    /// The modulus is at least two and at most two to the 32nd.
    proof fn lemma_modulus()
        ensures
            2 <= Self::modulus() <= 0x1_0000_0000,
    ;

    /// Every value lies below the modulus.
    proof fn lemma_in_range(self)
        ensures
            self.as_nat() < Self::modulus(),
    ;

    /// The zero value.
    fn zero() -> (r: Self)
        ensures
            r.as_nat() == 0,
    ;

    /// The next value up, wrapping to zero past the last value.
    fn wrapping_incr(self) -> (r: Self)
        ensures
            r.as_nat() == (self.as_nat() + 1) % Self::modulus(),
    ;

    /// The next value down, wrapping to the last value below zero.
    fn wrapping_decr(self) -> (r: Self)
        ensures
            r.as_nat() == (self.as_nat() + Self::modulus() - 1) % Self::modulus() as int,
    ;

    /// Whether the value is zero.
    fn eq_zero(self) -> (r: bool)
        ensures
            r == (self.as_nat() == 0),
    ;
}

/// A word that can address the tape: it doubles as the bound on the
/// number of cells, and its whole range fits in `usize`.
pub trait TapePointer: TapeWord {
    /// The value as an array index.
    fn to_index(self) -> (r: usize)
        ensures
            r as nat == self.as_nat(),
    ;

    /// The largest index: one less than the number of addressable cells.
    fn max_index() -> (r: usize)
        ensures
            r as nat + 1 == Self::modulus(),
    ;
}

/// A word that can live in a cell: it converts to and from plain
/// machine integers for reading, writing and rendering.
pub trait TapeCell: TapeWord {
    /// The number of bytes of the width.
    spec fn byte_width() -> nat;

    /// The width is between one and four bytes, and each byte holds two
    /// hexadecimal digits.
    proof fn lemma_byte_width()
        ensures
            1 <= Self::byte_width() <= 4,
            Self::modulus() == pow16(2 * Self::byte_width()),
    ;

    /// The value of a single byte.
    fn from_byte(b: u8) -> (r: Self)
        ensures
            r.as_nat() == b,
    ;

    /// The value as a plain 64-bit integer.
    fn to_u64(self) -> (r: u64)
        ensures
            r as nat == self.as_nat(),
    ;

    /// The value of a plain 64-bit integer below the modulus.
    fn from_u64(v: u64) -> (r: Self)
        requires
            (v as nat) < Self::modulus(),
        ensures
            r.as_nat() == v as nat,
    ;

    /// The number of bytes of the width, as a machine integer.
    fn width_bytes() -> (r: usize)
        ensures
            r as nat == Self::byte_width(),
    ;

    /// The greatest value, as a plain 64-bit integer.
    fn max_u64() -> (r: u64)
        ensures
            r as nat + 1 == Self::modulus(),
    ;
}

impl TapeWord for u8 {
    open spec fn modulus() -> nat {
        0x100
    }

    open spec fn as_nat(self) -> nat {
        self as nat
    }

    proof fn lemma_modulus() {
    }

    proof fn lemma_in_range(self) {
    }

    fn zero() -> (r: Self) {
        0
    }

    fn wrapping_incr(self) -> (r: Self) {
        if self == 0xff {
            0
        } else {
            self + 1
        }
    }

    fn wrapping_decr(self) -> (r: Self) {
        if self == 0 {
            0xff
        } else {
            self - 1
        }
    }

    fn eq_zero(self) -> (r: bool) {
        self == 0
    }
}

impl TapePointer for u8 {
    fn to_index(self) -> (r: usize) {
        self as usize
    }

    fn max_index() -> (r: usize) {
        0xff
    }
}

impl TapeCell for u8 {
    open spec fn byte_width() -> nat {
        1
    }

    proof fn lemma_byte_width() {
        reveal_with_fuel(pow16, 3);
    }

    fn from_byte(b: u8) -> (r: Self) {
        b
    }

    fn to_u64(self) -> (r: u64) {
        self as u64
    }

    fn from_u64(v: u64) -> (r: Self) {
        v as u8
    }

    fn width_bytes() -> (r: usize) {
        1
    }

    fn max_u64() -> (r: u64) {
        0xff
    }
}

impl TapeWord for u16 {
    open spec fn modulus() -> nat {
        0x1_0000
    }

    open spec fn as_nat(self) -> nat {
        self as nat
    }

    proof fn lemma_modulus() {
    }

    proof fn lemma_in_range(self) {
    }

    fn zero() -> (r: Self) {
        0
    }

    fn wrapping_incr(self) -> (r: Self) {
        if self == 0xffff {
            0
        } else {
            self + 1
        }
    }

    fn wrapping_decr(self) -> (r: Self) {
        if self == 0 {
            0xffff
        } else {
            self - 1
        }
    }

    fn eq_zero(self) -> (r: bool) {
        self == 0
    }
}

impl TapePointer for u16 {
    fn to_index(self) -> (r: usize) {
        self as usize
    }

    fn max_index() -> (r: usize) {
        0xffff
    }
}

impl TapeCell for u16 {
    open spec fn byte_width() -> nat {
        2
    }

    proof fn lemma_byte_width() {
        reveal_with_fuel(pow16, 5);
    }

    fn from_byte(b: u8) -> (r: Self) {
        b as u16
    }

    fn to_u64(self) -> (r: u64) {
        self as u64
    }

    fn from_u64(v: u64) -> (r: Self) {
        v as u16
    }

    fn width_bytes() -> (r: usize) {
        2
    }

    fn max_u64() -> (r: u64) {
        0xffff
    }
}

impl TapeWord for u32 {
    open spec fn modulus() -> nat {
        0x1_0000_0000
    }

    open spec fn as_nat(self) -> nat {
        self as nat
    }

    proof fn lemma_modulus() {
    }

    proof fn lemma_in_range(self) {
    }

    fn zero() -> (r: Self) {
        0
    }

    fn wrapping_incr(self) -> (r: Self) {
        if self == 0xffff_ffff {
            0
        } else {
            self + 1
        }
    }

    fn wrapping_decr(self) -> (r: Self) {
        if self == 0 {
            0xffff_ffff
        } else {
            self - 1
        }
    }

    fn eq_zero(self) -> (r: bool) {
        self == 0
    }
}

impl TapePointer for u32 {
    fn to_index(self) -> (r: usize) {
        self as usize
    }

    fn max_index() -> (r: usize) {
        0xffff_ffff
    }
}

impl TapeCell for u32 {
    open spec fn byte_width() -> nat {
        4
    }

    proof fn lemma_byte_width() {
        reveal_with_fuel(pow16, 9);
    }

    fn from_byte(b: u8) -> (r: Self) {
        b as u32
    }

    fn to_u64(self) -> (r: u64) {
        self as u64
    }

    fn from_u64(v: u64) -> (r: Self) {
        v as u32
    }

    fn width_bytes() -> (r: usize) {
        4
    }

    fn max_u64() -> (r: u64) {
        0xffff_ffff
    }
}

/// A pointer and one cell per addressable index.
pub struct Tape<T: TapePointer, U: TapeCell> {
    pointer: T,
    memory: Vec<U>,
}

impl<T: TapePointer, U: TapeCell> Tape<T, U> {
    /// The values of the cells, in order.
    pub closed spec fn cells(self) -> Seq<nat> {
        self.memory@.map(|i: int, c: U| c.as_nat())
    }

    /// The pointer's current value.
    pub closed spec fn ptr(self) -> nat {
        self.pointer.as_nat()
    }

    /// The tape always has one cell per addressable index, and the
    /// pointer always addresses a valid cell.
    #[verifier::type_invariant]
    pub open spec fn well_formed(self) -> bool {
        &&& self.cells().len() == T::modulus()
        &&& self.ptr() < T::modulus()
    }

    /// A fresh tape: every cell and the pointer start at zero.
    pub fn new() -> (r: Self)
        ensures
            r.ptr() == 0,
            r.cells() == Seq::new(T::modulus(), |i: int| 0nat),
    {
        let max = T::max_index();
        proof {
            T::lemma_modulus();
        }
        let mut memory: Vec<U> = Vec::new();
        memory.push(U::zero());
        let mut j: usize = 0;
        while j < max
            invariant
                j <= max,
                max as nat + 1 == T::modulus(),
                memory@.len() == j + 1,
                forall|k: int| 0 <= k < memory@.len() ==> (#[trigger] memory@[k]).as_nat() == 0,
            decreases max - j,
        {
            memory.push(U::zero());
            j = j + 1;
        }
        let r = Tape { pointer: T::zero(), memory };
        proof {
            assert(r.cells() =~= Seq::new(T::modulus(), |i: int| 0nat));
        }
        r
    }

    /// The number of cells.
    pub fn len(&self) -> (r: usize)
        ensures
            r as nat == T::modulus(),
    {
        proof {
            use_type_invariant(self);
        }
        self.memory.len()
    }

    /// Moves the pointer one cell to the right, wrapping past the end.
    pub fn right(&mut self)
        ensures
            final(self).ptr() == (old(self).ptr() + 1) % T::modulus(),
            final(self).cells() == old(self).cells(),
    {
        proof {
            use_type_invariant(&*self);
            T::lemma_modulus();
        }
        self.pointer = self.pointer.wrapping_incr();
    }

    /// Moves the pointer one cell to the left, wrapping past the start.
    pub fn left(&mut self)
        ensures
            final(self).ptr() == (old(self).ptr() + T::modulus() - 1) % T::modulus() as int,
            final(self).cells() == old(self).cells(),
    {
        proof {
            use_type_invariant(&*self);
            T::lemma_modulus();
        }
        self.pointer = self.pointer.wrapping_decr();
    }

    /// Steps the cell under the pointer up by one, wrapping to zero past
    /// the cell width's last value.
    pub fn increment(&mut self)
        ensures
            final(self).ptr() == old(self).ptr(),
            final(self).cells() == old(self).cells().update(
                old(self).ptr() as int,
                (old(self).cells()[old(self).ptr() as int] + 1) % U::modulus(),
            ),
    {
        proof {
            use_type_invariant(&*self);
            U::lemma_modulus();
        }
        let idx = self.pointer.to_index();
        let c = self.memory[idx];
        let c2 = c.wrapping_incr();
        self.memory[idx] = c2;
        proof {
            assert(final(self).cells() =~= old(self).cells().update(
                old(self).ptr() as int,
                c2.as_nat(),
            ));
        }
    }

    /// Steps the cell under the pointer down by one, wrapping to the cell
    /// width's last value below zero.
    pub fn decrement(&mut self)
        ensures
            final(self).ptr() == old(self).ptr(),
            final(self).cells() == old(self).cells().update(
                old(self).ptr() as int,
                ((old(self).cells()[old(self).ptr() as int] + U::modulus() - 1) % U::modulus()
                    as int) as nat,
            ),
    {
        proof {
            use_type_invariant(&*self);
            U::lemma_modulus();
        }
        let idx = self.pointer.to_index();
        let c = self.memory[idx];
        let c2 = c.wrapping_decr();
        self.memory[idx] = c2;
        proof {
            assert(final(self).cells() =~= old(self).cells().update(
                old(self).ptr() as int,
                c2.as_nat(),
            ));
        }
    }

    /// Reads the cell under the pointer.
    pub fn get(&self) -> (r: U)
        ensures
            r.as_nat() == self.cells()[self.ptr() as int],
    {
        proof {
            use_type_invariant(self);
        }
        let idx = self.pointer.to_index();
        self.memory[idx]
    }

    /// Writes the cell under the pointer.
    pub fn set(&mut self, value: U)
        ensures
            final(self).ptr() == old(self).ptr(),
            final(self).cells() == old(self).cells().update(
                old(self).ptr() as int,
                value.as_nat(),
            ),
    {
        proof {
            use_type_invariant(&*self);
        }
        let idx = self.pointer.to_index();
        self.memory[idx] = value;
        proof {
            assert(final(self).cells() =~= old(self).cells().update(
                old(self).ptr() as int,
                value.as_nat(),
            ));
        }
    }

    /// Whether the cell under the pointer is zero.
    pub fn is_zero(&self) -> (r: bool)
        ensures
            r == (self.cells()[self.ptr() as int] == 0),
    {
        proof {
            use_type_invariant(self);
        }
        let idx = self.pointer.to_index();
        self.memory[idx].eq_zero()
    }
}

impl<T: TapePointer, U: TapeCell> Default for Tape<T, U> {
    /// A fresh tape: every cell and the pointer start at zero.
    fn default() -> (r: Self)
        ensures
            r.ptr() == 0,
            r.cells() == Seq::new(T::modulus(), |i: int| 0nat),
    {
        Tape::new()
    }
}

/// Where the pointer lands after `k` single moves to the right on a tape
/// of `m` cells.
pub open spec fn ptr_after_rights(p: nat, m: nat, k: nat) -> nat
    decreases k,
{
    if k == 0 {
        p
    } else {
        (ptr_after_rights(p, m, (k - 1) as nat) + 1) % m
    }
}

/// Repeated single moves add up modulo the number of cells.
proof fn lemma_ptr_after_rights_mod(p: nat, m: nat, k: nat)
    requires
        0 < m,
        p < m,
    ensures
        ptr_after_rights(p, m, k) == (p + k) % m,
    decreases k,
{
    if k == 0 {
        vstd::arithmetic::div_mod::lemma_small_mod(p, m);
    } else {
        lemma_ptr_after_rights_mod(p, m, (k - 1) as nat);
        if m == 1 {
            vstd::arithmetic::div_mod::lemma_mod_self_0(1);
        } else {
            vstd::arithmetic::div_mod::lemma_small_mod(1, m);
            vstd::arithmetic::div_mod::lemma_add_mod_noop((p + k - 1) as int, 1, m as int);
        }
    }
}

/// Moving right exactly as many times as the tape has cells returns the
/// pointer to the cell it started on.
pub proof fn lemma_full_sweep_returns(p: nat, m: nat)
    requires
        0 < m,
        p < m,
    ensures
        ptr_after_rights(p, m, m) == p,
{
    lemma_ptr_after_rights_mod(p, m, m);
    vstd::arithmetic::div_mod::lemma_mod_add_multiples_vanish(p as int, m as int);
    vstd::arithmetic::div_mod::lemma_small_mod(p, m);
}

} // verus!
