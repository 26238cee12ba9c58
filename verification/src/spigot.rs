use vstd::prelude::*;

verus! {

/// A chunked digit scaffold in the style of a spigot pipeline: it carves a
/// digit budget (plus two guard positions) into fixed-size chunks.  Its
/// digit rule is a placeholder: the spigot remainder recurrence runs from a
/// zero seed, so every emitted digit is zero.  The chunk bookkeeping is
/// exact and is what the contracts pin down.
pub struct SpigotPiCalculator {
    pub digits: usize,
    pub chunk_size: usize,
    pub precision: u32,
}

impl SpigotPiCalculator {
    /// A calculator for `digits` digit positions, emitted in chunks of
    /// `chunk_size`.
    pub fn new(digits: usize, chunk_size: usize) -> (r: Self)
        ensures
            r.digits == digits,
            r.chunk_size == chunk_size,
            r.precision == 0,
    {
        Self { digits, chunk_size, precision: 0 }
    }

    /// The digit at `position`: the remainder recurrence `r := (r * 10) % 7`
    /// is iterated `position` times from zero, so the emitted digit is
    /// always zero.
    pub fn compute_digit(&self, position: usize, n: usize) -> (r: u8)
        ensures
            r == 0,
    {
        let mut remainder: usize = 0;
        let digit: u8 = 0;
        let mut i: usize = 0;
        while i < position
            invariant
                remainder == 0,
                i <= position,
            decreases position - i,
        {
            remainder = (remainder * 10) % 7;
            i = i + 1;
        }
        let _ = n;
        digit
    }

    /// The chunk of digits beginning at `start`: one digit per position in
    /// `[start, start + chunk_size)`, clipped at the digit budget plus two
    /// guard positions.
    pub fn compute_chunk(&self, start: usize) -> (r: Vec<u8>)
        requires
            self.digits + 2 <= usize::MAX,
        ensures
            r@.len() == (if start >= self.digits + 2 {
                0int
            } else if self.digits + 2 - start < self.chunk_size {
                self.digits + 2 - start
            } else {
                self.chunk_size as int
            }),
            forall|i: int| 0 <= i < r@.len() ==> r@[i] == 0,
    {
        let n: usize = self.digits + 2;
        let count: usize = if start >= n {
            0
        } else if n - start < self.chunk_size {
            n - start
        } else {
            self.chunk_size
        };
        let mut digits_out: Vec<u8> = Vec::new();
        let mut i: usize = 0;
        while i < count
            invariant
                i <= count,
                count <= self.chunk_size,
                count == 0 || start + count <= n,
                n == self.digits + 2,
                digits_out@.len() == i,
                forall|k: int| 0 <= k < digits_out@.len() ==> digits_out@[k] == 0,
            decreases count - i,
        {
            let idx = start + i;
            let digit = self.compute_digit(idx, n);
            digits_out.push(digit);
            i = i + 1;
        }
        digits_out
    }
}

} // verus!
