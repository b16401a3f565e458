//! The address space: a flat byte array holding font glyphs, program code and
//! working data, together with the read/write cursor used as the program
//! counter.

use vstd::prelude::*;

verus! {

/// Start of the reserved font glyph region: 16 glyphs of 5 bytes each.
pub const FONT_POS: usize = 0x50;

/// Start of the program region; the cursor is preset here at power-on.
pub const PROG_MEM_START: usize = 0x200;

/// Some programs want more room than the classic 4096 bytes.
pub const N_INSTRUCTIONS: usize = 2048 * 2;

/// Total size of the address space in bytes.
pub const N_BYTES: usize = 2 * N_INSTRUCTIONS;

/// Length of the font glyph region in bytes.
pub const FONT_LEN: usize = 80;

/// The 16-bit big-endian word stored at offset `at`.
pub open spec fn fetch_word(mem: Seq<u8>, at: int) -> u16 {
    ((mem[at] as u16) << 8) | (mem[at + 1] as u16)
}

pub struct Ram {
    pub mem: Vec<u8>,
    pub iterator: usize,
}

impl Ram {
    /// The memory has its fixed size and the cursor never strays further than
    /// one instruction width past the end (a fetch there is refused before it
    /// is attempted).
    pub open spec fn wf(self) -> bool {
        &&& self.mem.len() == N_BYTES
        &&& self.iterator <= N_BYTES + 2
    }

    /// Reads the big-endian word at the cursor without moving it.
    pub fn fetch(&mut self) -> (r: u16)
        requires
            old(self).wf(),
            old(self).iterator + 1 < N_BYTES,
        ensures
            *final(self) == *old(self),
            r == fetch_word(old(self).mem@, old(self).iterator as int),
    {
        return ((self.mem[self.iterator] as u16) << 8) | (self.mem[self.iterator + 1] as u16);
    }

    /// Writes the word at the cursor, high byte first.
    pub fn set_short(&mut self, val: u16)
        requires
            old(self).wf(),
            old(self).iterator + 1 < N_BYTES,
        ensures
            final(self).wf(),
            final(self).iterator == old(self).iterator,
            final(self).mem@ == old(self).mem@.update(
                old(self).iterator as int,
                (val >> 8) as u8,
            ).update(old(self).iterator + 1, (val & 0xFF) as u8),
    {
        self.mem[self.iterator] = (val >> 8) as u8;
        self.mem[self.iterator + 1] = (val & 0xFF) as u8;
    }

    /// Writes one byte at the cursor.
    pub fn set_byte(&mut self, val: u8)
        requires
            old(self).wf(),
            old(self).iterator < N_BYTES,
        ensures
            final(self).wf(),
            final(self).iterator == old(self).iterator,
            final(self).mem@ == old(self).mem@.update(old(self).iterator as int, val),
    {
        self.mem[self.iterator] = val;
    }

    /// Moves the cursor forward by one instruction width.
    pub fn increment(&mut self)
        requires
            old(self).wf(),
            old(self).iterator <= N_BYTES,
        ensures
            final(self).wf(),
            final(self).mem == old(self).mem,
            final(self).iterator == old(self).iterator + 2,
    {
        self.iterator += 2;
    }

    /// Moves the cursor back by one instruction width (used to retry an
    /// instruction that is not ready yet).
    pub fn decrement(&mut self)
        requires
            old(self).wf(),
            old(self).iterator >= 2,
        ensures
            final(self).wf(),
            final(self).mem == old(self).mem,
            final(self).iterator == old(self).iterator - 2,
    {
        self.iterator -= 2;
    }

    /// Sets the cursor absolutely.
    pub fn jump_to(&mut self, address: usize)
        requires
            old(self).wf(),
            address <= N_BYTES,
        ensures
            final(self).wf(),
            final(self).mem == old(self).mem,
            final(self).iterator == address,
    {
        self.iterator = address;
    }

    /// Reads the cursor.
    pub fn address(&self) -> (r: usize)
        ensures
            r == self.iterator,
    {
        return self.iterator;
    }

    /// Reads the byte at an arbitrary offset.
    pub fn get(&mut self, address: usize) -> (r: u8)
        requires
            old(self).wf(),
            address < N_BYTES,
        ensures
            *final(self) == *old(self),
            r == old(self).mem@[address as int],
    {
        return self.mem[address];
    }

    /// A copy of the program region, the only region a loader may fill.
    pub fn get_pgrm_mem(&mut self) -> (r: Vec<u8>)
        requires
            old(self).wf(),
        ensures
            *final(self) == *old(self),
            r@ == old(self).mem@.subrange(PROG_MEM_START as int, N_INSTRUCTIONS as int),
    {
        let mut out: Vec<u8> = Vec::new();
        let mut k: usize = PROG_MEM_START;
        while k < N_INSTRUCTIONS
            invariant
                self.wf(),
                *self == *old(self),
                PROG_MEM_START <= k <= N_INSTRUCTIONS,
                out@ == self.mem@.subrange(PROG_MEM_START as int, k as int),
            decreases N_INSTRUCTIONS - k,
        {
            out.push(self.mem[k]);
            k += 1;
            proof {
                assert(out@ =~= self.mem@.subrange(PROG_MEM_START as int, k as int));
            }
        }
        return out;
    }

    /// Copies a program image verbatim into the program region, starting at
    /// its base offset; nothing outside that region is touched.
    pub fn load_program(&mut self, prog: &Vec<u8>)
        requires
            old(self).wf(),
            prog.len() <= N_INSTRUCTIONS - PROG_MEM_START,
        ensures
            final(self).wf(),
            final(self).iterator == old(self).iterator,
            final(self).mem@.len() == old(self).mem@.len(),
            forall|k: int|
                0 <= k < prog.len() ==> final(self).mem@[PROG_MEM_START + k] == prog@[k],
            forall|k: int|
                0 <= k < N_BYTES && !(PROG_MEM_START <= k < PROG_MEM_START + prog.len())
                    ==> final(self).mem@[k] == old(self).mem@[k],
    {
        let mut k: usize = 0;
        while k < prog.len()
            invariant
                self.wf(),
                prog.len() <= N_INSTRUCTIONS - PROG_MEM_START,
                0 <= k <= prog.len(),
                self.iterator == old(self).iterator,
                self.mem@.len() == old(self).mem@.len(),
                forall|j: int| 0 <= j < k ==> self.mem@[PROG_MEM_START + j] == prog@[j],
                forall|j: int|
                    0 <= j < N_BYTES && !(PROG_MEM_START <= j < PROG_MEM_START + k)
                        ==> self.mem@[j] == old(self).mem@[j],
            decreases prog.len() - k,
        {
            self.mem[PROG_MEM_START + k] = prog[k];
            k += 1;
        }
    }
}

/// The 16 font glyphs, 5 bytes per glyph, for the digits 0 to F in order.
pub open spec fn spec_font() -> Seq<u8> {
    seq![
        0xF0u8, 0x90, 0x90, 0x90, 0xF0,
        0x20, 0x60, 0x20, 0x20, 0x70,
        0xF0, 0x10, 0xF0, 0x80, 0xF0,
        0xF0, 0x10, 0xF0, 0x10, 0xF0,
        0x90, 0x90, 0xF0, 0x10, 0x10,
        0xF0, 0x80, 0xF0, 0x10, 0xF0,
        0xF0, 0x80, 0xF0, 0x90, 0xF0,
        0xF0, 0x10, 0x20, 0x40, 0x40,
        0xF0, 0x90, 0xF0, 0x90, 0xF0,
        0xF0, 0x90, 0xF0, 0x10, 0xF0,
        0xF0, 0x90, 0xF0, 0x90, 0x90,
        0xE0, 0x90, 0xE0, 0x90, 0xE0,
        0xF0, 0x80, 0x80, 0x80, 0xF0,
        0xE0, 0x90, 0x90, 0x90, 0xE0,
        0xF0, 0x80, 0xF0, 0x80, 0xF0,
        0xF0, 0x80, 0xF0, 0x80, 0x80,
    ]
}

/// The font glyphs as bytes, in glyph order.
pub fn font_data() -> (r: Vec<u8>)
    ensures
        r@ == spec_font(),
{
    let r: Vec<u8> = vec![
        0xF0u8, 0x90, 0x90, 0x90, 0xF0,
        0x20, 0x60, 0x20, 0x20, 0x70,
        0xF0, 0x10, 0xF0, 0x80, 0xF0,
        0xF0, 0x10, 0xF0, 0x10, 0xF0,
        0x90, 0x90, 0xF0, 0x10, 0x10,
        0xF0, 0x80, 0xF0, 0x10, 0xF0,
        0xF0, 0x80, 0xF0, 0x90, 0xF0,
        0xF0, 0x10, 0x20, 0x40, 0x40,
        0xF0, 0x90, 0xF0, 0x90, 0xF0,
        0xF0, 0x90, 0xF0, 0x10, 0xF0,
        0xF0, 0x90, 0xF0, 0x90, 0x90,
        0xE0, 0x90, 0xE0, 0x90, 0xE0,
        0xF0, 0x80, 0x80, 0x80, 0xF0,
        0xE0, 0x90, 0x90, 0x90, 0xE0,
        0xF0, 0x80, 0xF0, 0x80, 0xF0,
        0xF0, 0x80, 0xF0, 0x80, 0x80,
    ];
    proof {
        assert(r@ =~= spec_font());
    }
    return r;
}

/// The whole address space at power-on: font glyphs in their reserved region,
/// zero everywhere else.
pub open spec fn boot_mem() -> Seq<u8> {
    Seq::new(
        N_BYTES as nat,
        |k: int|
            if FONT_POS <= k < FONT_POS + FONT_LEN {
                spec_font()[k - FONT_POS]
            } else {
                0u8
            },
    )
}

/// Zeroed memory with the font glyphs installed, cursor preset to the program
/// region's base.
pub fn create_ram() -> (r: Ram)
    ensures
        r.wf(),
        r.iterator == PROG_MEM_START,
        r.mem@ == boot_mem(),
{
    let font = font_data();
    let mem: Vec<u8> = vec![0u8; N_BYTES];
    let mut ram = Ram { mem, iterator: FONT_POS };
    let mut k: usize = 0;
    while k < FONT_LEN
        invariant
            ram.wf(),
            font@ == spec_font(),
            0 <= k <= FONT_LEN,
            forall|j: int| FONT_POS <= j < FONT_POS + k ==> ram.mem@[j] == spec_font()[j - FONT_POS],
            forall|j: int|
                0 <= j < N_BYTES && !(FONT_POS <= j < FONT_POS + k) ==> ram.mem@[j] == 0u8,
        decreases FONT_LEN - k,
    {
        ram.jump_to(FONT_POS + k);
        ram.set_byte(font[k]);
        k += 1;
    }
    ram.jump_to(PROG_MEM_START);
    proof {
        assert(ram.mem@ =~= boot_mem());
    }
    return ram;
}

} // verus!
