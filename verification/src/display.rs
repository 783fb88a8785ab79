use vstd::prelude::*;

use crate::machine::{BrookshearMachine, MachineState};
use crate::text::{dec_str, push_dec, push_str};

verus! {

/// The display is 32 by 32 pixels, backed by the 128 bytes from address 80:
/// four bytes per row, the leftmost pixel in the highest bit.
pub const DISPLAY_WIDTH: u32 = 32;

pub const DISPLAY_HEIGHT: u32 = 32;

/// A pixel that is on: opaque white.
pub open spec fn pixel_on() -> [u8; 4] {
    [255u8, 255u8, 255u8, 255u8]
}

/// A pixel that is off: opaque black.
pub open spec fn pixel_off() -> [u8; 4] {
    [0u8, 0u8, 0u8, 255u8]
}

/// An RGBA image, row by row.
pub struct RgbaImage {
    pub width: u32,
    pub height: u32,
    pub pixels: Vec<[u8; 4]>,
}

impl RgbaImage {
    /// There is one pixel for each column of each row.
    pub open spec fn wf(&self) -> bool {
        self.pixels@.len() == self.width as int * self.height as int
    }
}

/// Whether the pixel at row `row` and column `col` of the display is on.
pub open spec fn display_bit(m: Seq<u8>, row: int, col: int) -> bool {
    m[row * 4 + col / 8] & (1u8 << ((7 - col % 8) as u8)) != 0
}

/// The image of a display: white where a bit is set, black elsewhere, row
/// by row.
pub open spec fn display_image(m: Seq<u8>) -> Seq<[u8; 4]> {
    Seq::new(1024, |k: int| if display_bit(m, k / 32, k % 32) { pixel_on() } else { pixel_off() })
}

/// The display has a lit pixel and a dark one.
pub open spec fn two_colored(m: Seq<u8>) -> bool {
    &&& exists|k: int| 0 <= k < 1024 && #[trigger] display_bit(m, k / 32, k % 32)
    &&& exists|k: int| 0 <= k < 1024 && !#[trigger] display_bit(m, k / 32, k % 32)
}

/// The brightness of a pixel: its largest colour channel.
pub open spec fn brightness(p: [u8; 4]) -> u8 {
    let a = p@[0];
    let b = p@[1];
    let c = p@[2];
    if a >= b && a >= c { a } else if b >= c { b } else { c }
}

/// The index of the first pixel from `k` on whose brightness is not `v`.
pub open spec fn first_other(px: Seq<[u8; 4]>, v: u8, k: int) -> Option<int>
    decreases px.len() - k,
{
    if k < 0 || k >= px.len() {
        None
    } else if brightness(px[k]) != v {
        Some(k)
    } else {
        first_other(px, v, k + 1)
    }
}

/// The index of the first pixel from `k` on whose brightness is neither
/// `on` nor `off`.
pub open spec fn first_third(px: Seq<[u8; 4]>, on: u8, off: u8, k: int) -> Option<int>
    decreases px.len() - k,
{
    if k < 0 || k >= px.len() {
        None
    } else if brightness(px[k]) != on && brightness(px[k]) != off {
        Some(k)
    } else {
        first_third(px, on, off, k + 1)
    }
}

/// The byte whose bits, highest first, tell which of the `n` pixels from
/// `start` have brightness `on`.
pub open spec fn bits_value(px: Seq<[u8; 4]>, on: u8, start: int, n: int) -> int
    decreases n,
{
    if n <= 0 {
        0
    } else {
        bits_value(px, on, start, n - 1) * 2 + if brightness(px[start + n - 1]) == on { 1int } else { 0int }
    }
}

pub open spec fn size_message(w: u32, h: u32) -> Seq<char> {
    "Display images must be exactly 32x32 pixels, but this image is "@ + dec_str(w as nat) + "x"@ + dec_str(h as nat) + "."@
}

pub open spec fn third_message(v: u8, col: int, row: int) -> Seq<char> {
    "Encountered a third pixel value ("@ + dec_str(v as nat) + ") at ("@ + dec_str(col as nat) + ", "@ + dec_str(row as nat)
        + "); only two colors are supported."@
}

/// Reading the display from an image: the image must be 32 by 32 with
/// exactly two brightnesses; the brighter one is on.
pub open spec fn spec_image_to_display(w: u32, h: u32, px: Seq<[u8; 4]>) -> Result<Seq<u8>, Seq<char>> {
    if w != 32 || h != 32 {
        Err(size_message(w, h))
    } else {
        let v0 = brightness(px[0]);
        match first_other(px, v0, 0) {
            None => Err("Display image must contain exactly two colors so the on/off pixels can be determined."@),
            Some(k1) => {
                let v1 = brightness(px[k1]);
                let on = if v0 >= v1 { v0 } else { v1 };
                let off = if v0 >= v1 { v1 } else { v0 };
                match first_third(px, on, off, 0) {
                    Some(k) => Err(third_message(brightness(px[k]), k % 32, k / 32)),
                    None => Ok(Seq::new(128, |a: int| bits_value(px, on, 8 * a, 8) as u8)),
                }
            },
        }
    }
}

/// The brightness of a pixel.
pub fn pixel_value(pixel: &[u8; 4]) -> (v: u8)
    ensures
        v == brightness(*pixel),
{
    let a = pixel[0];
    let b = pixel[1];
    let c = pixel[2];
    if a >= b && a >= c { a } else if b >= c { b } else { c }
}

/// The display as a 32 by 32 image: white where a bit is set, black where it
/// is not.
pub fn display_memory_to_rgba_image(bytes: &[u8; 128]) -> (image: RgbaImage)
    ensures
        image.wf(),
        image.width == 32,
        image.height == 32,
        image.pixels@ == display_image(bytes@),
{
    let mut pixels: Vec<[u8; 4]> = Vec::new();
    let mut row: u32 = 0;
    while row < DISPLAY_HEIGHT
        invariant
            row <= 32,
            pixels@.len() == row * 32,
            forall|k: int| 0 <= k < pixels@.len() ==> #[trigger] pixels@[k]
                == if display_bit(bytes@, k / 32, k % 32) { pixel_on() } else { pixel_off() },
        decreases 32 - row,
    {
        let mut col: u32 = 0;
        while col < DISPLAY_WIDTH
            invariant
                row < 32,
                col <= 32,
                pixels@.len() == row * 32 + col,
                forall|k: int| 0 <= k < pixels@.len() ==> #[trigger] pixels@[k]
                    == if display_bit(bytes@, k / 32, k % 32) { pixel_on() } else { pixel_off() },
            decreases 32 - col,
        {
            let address = (row * 4 + col / 8) as usize;
            let byte = bytes[address];
            let bit = byte & (1u8 << ((7 - col % 8) as u8));
            let ghost k = pixels@.len() as int;
            assert(k / 32 == row && k % 32 == col) by (nonlinear_arith)
                requires
                    k == row * 32 + col,
                    col < 32,
            ;
            pixels.push(if bit != 0 { [255u8, 255u8, 255u8, 255u8] } else { [0u8, 0u8, 0u8, 255u8] });
            col = col + 1;
        }
        row = row + 1;
    }
    assert(pixels@ =~= display_image(bytes@));
    RgbaImage { width: DISPLAY_WIDTH, height: DISPLAY_HEIGHT, pixels }
}

proof fn lemma_bits_value_bound(px: Seq<[u8; 4]>, on: u8, start: int, n: int)
    requires
        0 <= n <= 8,
    ensures
        0 <= bits_value(px, on, start, n) < crate::float8::pow2(n as nat),
    decreases n,
{
    reveal_with_fuel(crate::float8::pow2, 2);
    if n > 0 {
        lemma_bits_value_bound(px, on, start, n - 1);
    }
}

/// Reads the display from an image with exactly two brightnesses, the
/// brighter one meaning on; any other image is refused with a message.
pub fn rgba_image_to_display_memory(image: &RgbaImage) -> (r: Result<[u8; 128], String>)
    requires
        image.wf(),
    ensures
        match spec_image_to_display(image.width, image.height, image.pixels@) {
            Ok(m) => r matches Ok(b) && b@ == m,
            Err(msg) => r matches Err(s) && s@ == msg,
        },
{
    if image.width != DISPLAY_WIDTH || image.height != DISPLAY_HEIGHT {
        let mut s = String::new();
        push_str(&mut s, "Display images must be exactly 32x32 pixels, but this image is ");
        push_dec(&mut s, image.width as u64);
        push_str(&mut s, "x");
        push_dec(&mut s, image.height as u64);
        push_str(&mut s, ".");
        assert(s@ =~= size_message(image.width, image.height));
        return Err(s);
    }
    let px = &image.pixels;
    let ghost pv = px@;
    assert(image.width == 32 && image.height == 32);
    assert(pv.len() == 32 * 32);
    let first_value = pixel_value(&px[0]);
    let mut k: usize = 0;
    let mut second: Option<u8> = None;
    while k < 1024
        invariant_except_break
            second is None,
        invariant
            pv == px@,
            pv.len() == 1024,
            k <= 1024,
            first_other(pv, first_value, 0) == first_other(pv, first_value, k as int),
        ensures
            match first_other(pv, first_value, 0) {
                Some(i) => second == Some(brightness(pv[i])),
                None => second is None,
            },
        decreases 1024 - k,
    {
        let v = pixel_value(&px[k]);
        if v != first_value {
            second = Some(v);
            break;
        }
        k = k + 1;
    }
    let second_value = match second {
        Some(v) => v,
        None => {
            let mut s = String::new();
            push_str(&mut s, "Display image must contain exactly two colors so the on/off pixels can be determined.");
            return Err(s);
        },
    };
    let on_value = if first_value >= second_value { first_value } else { second_value };
    let off_value = if first_value >= second_value { second_value } else { first_value };
    let mut k: usize = 0;
    while k < 1024
        invariant
            pv == px@,
            pv.len() == 1024,
            k <= 1024,
            first_third(pv, on_value, off_value, 0) == first_third(pv, on_value, off_value, k as int),
            pv == image.pixels@,
            image.width == 32 && image.height == 32,
            first_value == brightness(pv[0]),
            first_other(pv, first_value, 0) is Some,
            second_value == brightness(pv[first_other(pv, first_value, 0)->0]),
            on_value == (if first_value >= second_value { first_value } else { second_value }),
            off_value == (if first_value >= second_value { second_value } else { first_value }),
        decreases 1024 - k,
    {
        let v = pixel_value(&px[k]);
        if v != on_value && v != off_value {
            assert(first_third(pv, on_value, off_value, k as int) == Some(k as int));
            let mut s = String::new();
            push_str(&mut s, "Encountered a third pixel value (");
            push_dec(&mut s, v as u64);
            push_str(&mut s, ") at (");
            push_dec(&mut s, (k % 32) as u64);
            push_str(&mut s, ", ");
            push_dec(&mut s, (k / 32) as u64);
            push_str(&mut s, "); only two colors are supported.");
            assert(s@ =~= third_message(v, k as int % 32, k as int / 32));
            return Err(s);
        }
        k = k + 1;
    }
    assert(first_third(pv, on_value, off_value, 0) is None);
    let mut output = [0u8; 128];
    let mut a: usize = 0;
    while a < 128
        invariant
            pv == px@,
            pv.len() == 1024,
            a <= 128,
            forall|i: int| 0 <= i < a ==> output@[i] == bits_value(pv, on_value, 8 * i, 8) as u8,
        decreases 128 - a,
    {
        let mut b: u32 = 0;
        let mut j: usize = 0;
        while j < 8
            invariant
                pv == px@,
                pv.len() == 1024,
                a < 128,
                j <= 8,
                b == bits_value(pv, on_value, 8 * a, j as int),
            decreases 8 - j,
        {
            proof {
                lemma_bits_value_bound(pv, on_value, 8 * a, j as int);
                assert(crate::float8::pow2(8) == 256) by {
                    reveal_with_fuel(crate::float8::pow2, 9);
                }
                if j < 8 {
                    lemma_pow2_le(j as nat, 8);
                }
            }
            let bit: u32 = if pixel_value(&px[8 * a + j]) == on_value { 1 } else { 0 };
            b = b * 2 + bit;
            j = j + 1;
        }
        proof {
            lemma_bits_value_bound(pv, on_value, 8 * a, 8);
            assert(crate::float8::pow2(8) == 256) by {
                reveal_with_fuel(crate::float8::pow2, 9);
            }
        }
        output[a] = b as u8;
        a = a + 1;
    }
    assert(output@ =~= Seq::new(128, |i: int| bits_value(pv, on_value, 8 * i, 8) as u8));
    Ok(output)
}

proof fn lemma_pow2_le(a: nat, b: nat)
    requires
        a <= b,
    ensures
        crate::float8::pow2(a) <= crate::float8::pow2(b),
    decreases b,
{
    reveal_with_fuel(crate::float8::pow2, 2);
    if a < b {
        lemma_pow2_le(a, (b - 1) as nat);
    }
}

proof fn lemma_first_other(px: Seq<[u8; 4]>, v: u8, k: int)
    requires
        0 <= k,
    ensures
        first_other(px, v, k) matches Some(i) ==> k <= i < px.len() && brightness(px[i]) != v,
        (exists|i: int| k <= i < px.len() && brightness(#[trigger] px[i]) != v) ==> first_other(px, v, k) is Some,
    decreases px.len() - k,
{
    if k < px.len() {
        lemma_first_other(px, v, k + 1);
        if exists|i: int| k <= i < px.len() && brightness(#[trigger] px[i]) != v {
            let i = choose|i: int| k <= i < px.len() && brightness(#[trigger] px[i]) != v;
            if i > k {
                assert(k + 1 <= i < px.len() && brightness(px[i]) != v);
            }
        }
    }
}

proof fn lemma_first_third_none(px: Seq<[u8; 4]>, on: u8, off: u8, k: int)
    requires
        0 <= k,
        forall|i: int| k <= i < px.len() ==> brightness(#[trigger] px[i]) == on || brightness(px[i]) == off,
    ensures
        first_third(px, on, off, k) is None,
    decreases px.len() - k,
{
    if k < px.len() {
        lemma_first_third_none(px, on, off, k + 1);
    }
}

proof fn lemma_byte_bits(x: u8)
    ensures
        x as int == (if x & 128 != 0 { 128int } else { 0int }) + (if x & 64 != 0 { 64int } else { 0int })
            + (if x & 32 != 0 { 32int } else { 0int }) + (if x & 16 != 0 { 16int } else { 0int })
            + (if x & 8 != 0 { 8int } else { 0int }) + (if x & 4 != 0 { 4int } else { 0int })
            + (if x & 2 != 0 { 2int } else { 0int }) + (if x & 1 != 0 { 1int } else { 0int }),
{
    assert(x as int == (if x & 128 != 0 { 128int } else { 0int }) + (if x & 64 != 0 { 64int } else { 0int })
            + (if x & 32 != 0 { 32int } else { 0int }) + (if x & 16 != 0 { 16int } else { 0int })
            + (if x & 8 != 0 { 8int } else { 0int }) + (if x & 4 != 0 { 4int } else { 0int })
            + (if x & 2 != 0 { 2int } else { 0int }) + (if x & 1 != 0 { 1int } else { 0int })) by (bit_vector);
}

proof fn lemma_pixel_index(a: int, j: int)
    requires
        0 <= a < 128,
        0 <= j < 8,
    ensures
        ((8 * a + j) / 32) * 4 + ((8 * a + j) % 32) / 8 == a,
        ((8 * a + j) % 32) % 8 == j,
        0 <= 8 * a + j < 1024,
{
    assert(((8 * a + j) / 32) * 4 + ((8 * a + j) % 32) / 8 == a) by (nonlinear_arith)
        requires
            0 <= a < 128,
            0 <= j < 8,
    ;
    assert(((8 * a + j) % 32) % 8 == j) by (nonlinear_arith)
        requires
            0 <= a < 128,
            0 <= j < 8,
    ;
}

/// A display saved as an image and read back is the same display, as long
/// as it has a lit and a dark pixel; an image of one colour is refused, as
/// it cannot tell which colour is on.
pub proof fn lemma_display_image_roundtrip(m: Seq<u8>)
    requires
        m.len() == 128,
    ensures
        two_colored(m) ==> spec_image_to_display(32, 32, display_image(m)) == Ok::<Seq<u8>, Seq<char>>(m),
        !two_colored(m) ==> spec_image_to_display(32, 32, display_image(m))
            == Err::<Seq<u8>, Seq<char>>("Display image must contain exactly two colors so the on/off pixels can be determined."@),
{
    let px = display_image(m);
    assert(brightness(pixel_on()) == 255u8);
    assert(brightness(pixel_off()) == 0u8);
    assert forall|k: int| 0 <= k < 1024 implies brightness(#[trigger] px[k]) == (if display_bit(m, k / 32, k % 32) { 255u8 } else { 0u8 }) by {}
    let v0 = brightness(px[0]);
    lemma_first_other(px, v0, 0);
    if two_colored(m) {
        let kon = choose|k: int| 0 <= k < 1024 && #[trigger] display_bit(m, k / 32, k % 32);
        let koff = choose|k: int| 0 <= k < 1024 && !#[trigger] display_bit(m, k / 32, k % 32);
        assert(brightness(px[kon]) == 255u8);
        assert(brightness(px[koff]) == 0u8);
        if v0 == 255 {
            assert(0 <= koff < px.len() && brightness(px[koff]) != v0);
        } else {
            assert(0 <= kon < px.len() && brightness(px[kon]) != v0);
        }
        let k1 = first_other(px, v0, 0)->0;
        let v1 = brightness(px[k1]);
        let on: u8 = if v0 >= v1 { v0 } else { v1 };
        let off: u8 = if v0 >= v1 { v1 } else { v0 };
        assert(on == 255u8 && off == 0u8);
        lemma_first_third_none(px, on, off, 0);
        let out = Seq::new(128, |a: int| bits_value(px, on, 8 * a, 8) as u8);
        assert forall|a: int| 0 <= a < 128 implies #[trigger] out[a] == m[a] by {
            reveal_with_fuel(bits_value, 9);
            lemma_byte_bits(m[a]);
            lemma_pixel_index(a, 0);
            lemma_pixel_index(a, 1);
            lemma_pixel_index(a, 2);
            lemma_pixel_index(a, 3);
            lemma_pixel_index(a, 4);
            lemma_pixel_index(a, 5);
            lemma_pixel_index(a, 6);
            lemma_pixel_index(a, 7);
            assert(1u8 << 7u8 == 128u8) by (bit_vector);
            assert(1u8 << 6u8 == 64u8) by (bit_vector);
            assert(1u8 << 5u8 == 32u8) by (bit_vector);
            assert(1u8 << 4u8 == 16u8) by (bit_vector);
            assert(1u8 << 3u8 == 8u8) by (bit_vector);
            assert(1u8 << 2u8 == 4u8) by (bit_vector);
            assert(1u8 << 1u8 == 2u8) by (bit_vector);
            assert(1u8 << 0u8 == 1u8) by (bit_vector);
        }
        assert(out =~= m);
    } else {
        if exists|k: int| 0 <= k < px.len() && brightness(#[trigger] px[k]) != v0 {
            let k = choose|k: int| 0 <= k < px.len() && brightness(#[trigger] px[k]) != v0;
            assert(brightness(px[0]) == (if display_bit(m, 0int / 32, 0int % 32) { 255u8 } else { 0u8 }));
            assert(display_bit(m, k / 32, k % 32) != display_bit(m, 0int / 32, 0int % 32));
            if display_bit(m, k / 32, k % 32) {
                assert(!display_bit(m, 0int / 32, 0int % 32));
                assert(0 <= 0 < 1024 && !display_bit(m, 0int / 32, 0int % 32));
            } else {
                assert(display_bit(m, 0int / 32, 0int % 32));
            }
        }
    }
}

/// The display's 128 bytes within the machine's memory.
pub open spec fn display_region(memory: Seq<u8>) -> Seq<u8> {
    memory.subrange(128, 256)
}

/// `after` is `before` with the pixel at `row`, `col` flipped: every other
/// pixel, the rest of memory, the registers, the program counter and the
/// history stay as they were.
pub open spec fn pixel_flipped(before: MachineState, after: MachineState, row: int, col: int) -> bool {
    &&& after == (MachineState { memory: after.memory, ..before })
    &&& after.memory.len() == before.memory.len()
    &&& after.memory.subrange(0, 128) == before.memory.subrange(0, 128)
    &&& forall|r: int, c: int|
        0 <= r < 32 && 0 <= c < 32 ==> #[trigger] display_bit(display_region(after.memory), r, c) == (display_bit(
            display_region(before.memory),
            r,
            c,
        ) != (r == row && c == col))
}

/// Whether the pixel at `row`, `col` of the machine's display is lit.
pub fn display_pixel(machine: &BrookshearMachine, row: u8, col: u8) -> (on: bool)
    requires
        row < 32,
        col < 32,
    ensures
        on == display_bit(display_region(machine@.memory), row as int, col as int),
{
    proof {
        machine.lemma_shape();
    }
    let address: u8 = 128 + row * 4 + col / 8;
    let byte = machine.get_memory(address);
    byte & (1u8 << (7 - col % 8)) != 0
}

proof fn lemma_flip_bit(b: u8, k: u8, j: u8)
    requires
        k < 8,
        j < 8,
    ensures
        ((if b & (1u8 << k) != 0 { b & !(1u8 << k) } else { b | (1u8 << k) }) & (1u8 << j) != 0) == ((b & (1u8
            << j) != 0) != (j == k)),
{
    assert(((if b & (1u8 << k) != 0 { b & !(1u8 << k) } else { b | (1u8 << k) }) & (1u8 << j) != 0) == ((b & (1u8
        << j) != 0) != (j == k))) by (bit_vector)
        requires
            k < 8,
            j < 8,
    ;
}

/// Flips the pixel at `row`, `col` of the machine's display, as a click on
/// it does: a lit pixel goes dark and a dark one lights up.
pub fn toggle_display_pixel(machine: &mut BrookshearMachine, row: u8, col: u8)
    requires
        row < 32,
        col < 32,
    ensures
        pixel_flipped(old(machine)@, final(machine)@, row as int, col as int),
{
    proof {
        machine.lemma_shape();
    }
    let address: u8 = 128 + row * 4 + col / 8;
    let byte = machine.get_memory(address);
    let mask: u8 = 1u8 << (7 - col % 8);
    let new_byte = if byte & mask != 0 { byte & !mask } else { byte | mask };
    machine.set_memory(address, new_byte);
    proof {
        let before = old(machine)@.memory;
        let after = machine@.memory;
        assert(after == before.update(address as int, new_byte));
        assert(after.subrange(0, 128) =~= before.subrange(0, 128));
        assert forall|r: int, c: int| 0 <= r < 32 && 0 <= c < 32 implies #[trigger] display_bit(
            display_region(after),
            r,
            c,
        ) == (display_bit(display_region(before), r, c) != (r == row && c == col)) by {
            let i = r * 4 + c / 8;
            if 128 + i == address as int {
                assert(r == row && c / 8 == col / 8);
                lemma_flip_bit(byte, (7 - col % 8) as u8, (7 - c % 8) as u8);
            }
        }
    }
}

proof fn lemma_toggle_twice_bit(s0: MachineState, s1: MachineState, s2: MachineState, row: int, col: int, a: int, j: int)
    requires
        s0.memory.len() == 256,
        pixel_flipped(s0, s1, row, col),
        pixel_flipped(s1, s2, row, col),
        0 <= a < 128,
        0 <= j < 8,
    ensures
        (display_region(s2.memory)[a] & (1u8 << ((7 - j) as u8)) != 0) == (display_region(s0.memory)[a] & (1u8 << ((7
            - j) as u8)) != 0),
{
    lemma_pixel_index(a, j);
    let k = 8 * a + j;
    let m1 = display_region(s1.memory);
    assert(display_bit(m1, k / 32, k % 32) == (display_bit(display_region(s0.memory), k / 32, k % 32) != (k / 32 == row
        && k % 32 == col)));
    assert(display_bit(display_region(s2.memory), k / 32, k % 32) == (display_bit(m1, k / 32, k % 32) != (k / 32 == row
        && k % 32 == col)));
}

/// Two flips of the same pixel leave the machine as it was.
pub proof fn lemma_toggle_twice(s0: MachineState, s1: MachineState, s2: MachineState, row: int, col: int)
    requires
        s0.memory.len() == 256,
        pixel_flipped(s0, s1, row, col),
        pixel_flipped(s1, s2, row, col),
    ensures
        s2 == s0,
{
    let m0 = display_region(s0.memory);
    let m2 = display_region(s2.memory);
    assert forall|a: int| 0 <= a < 128 implies #[trigger] m2[a] == m0[a] by {
        lemma_toggle_twice_bit(s0, s1, s2, row, col, a, 0);
        lemma_toggle_twice_bit(s0, s1, s2, row, col, a, 1);
        lemma_toggle_twice_bit(s0, s1, s2, row, col, a, 2);
        lemma_toggle_twice_bit(s0, s1, s2, row, col, a, 3);
        lemma_toggle_twice_bit(s0, s1, s2, row, col, a, 4);
        lemma_toggle_twice_bit(s0, s1, s2, row, col, a, 5);
        lemma_toggle_twice_bit(s0, s1, s2, row, col, a, 6);
        lemma_toggle_twice_bit(s0, s1, s2, row, col, a, 7);
        assert(1u8 << 7u8 == 128u8) by (bit_vector);
        assert(1u8 << 6u8 == 64u8) by (bit_vector);
        assert(1u8 << 5u8 == 32u8) by (bit_vector);
        assert(1u8 << 4u8 == 16u8) by (bit_vector);
        assert(1u8 << 3u8 == 8u8) by (bit_vector);
        assert(1u8 << 2u8 == 4u8) by (bit_vector);
        assert(1u8 << 1u8 == 2u8) by (bit_vector);
        assert(1u8 << 0u8 == 1u8) by (bit_vector);
        assert((m2[a] & (1u8 << 7u8) != 0) == (m0[a] & (1u8 << 7u8) != 0));
        assert((m2[a] & (1u8 << 6u8) != 0) == (m0[a] & (1u8 << 6u8) != 0));
        assert((m2[a] & (1u8 << 5u8) != 0) == (m0[a] & (1u8 << 5u8) != 0));
        assert((m2[a] & (1u8 << 4u8) != 0) == (m0[a] & (1u8 << 4u8) != 0));
        assert((m2[a] & (1u8 << 3u8) != 0) == (m0[a] & (1u8 << 3u8) != 0));
        assert((m2[a] & (1u8 << 2u8) != 0) == (m0[a] & (1u8 << 2u8) != 0));
        assert((m2[a] & (1u8 << 1u8) != 0) == (m0[a] & (1u8 << 1u8) != 0));
        assert((m2[a] & (1u8 << 0u8) != 0) == (m0[a] & (1u8 << 0u8) != 0));
        lemma_byte_bits(m2[a]);
        lemma_byte_bits(m0[a]);
    }
    assert(s2.memory =~= s0.memory) by {
        assert forall|a: int| 0 <= a < 256 implies #[trigger] s2.memory[a] == s0.memory[a] by {
            if a < 128 {
                assert(s2.memory[a] == s2.memory.subrange(0, 128)[a]);
                assert(s0.memory[a] == s0.memory.subrange(0, 128)[a]);
            } else {
                assert(s2.memory[a] == m2[a - 128]);
                assert(s0.memory[a] == m0[a - 128]);
            }
        }
    }
}

/// The display filled: every pixel lit for `lit`, every pixel dark
/// otherwise.
pub open spec fn filled_display(lit: bool) -> Seq<u8> {
    Seq::new(128, |i: int| if lit { 255u8 } else { 0u8 })
}

/// Clears the machine's display to dark, or fills it lit for `lit`, as the
/// display's clear button does; nothing outside the display changes.
pub fn clear_display(machine: &mut BrookshearMachine, lit: bool)
    ensures
        final(machine)@ == (MachineState {
            memory: old(machine)@.memory.subrange(0, 128) + filled_display(lit),
            ..old(machine)@
        }),
{
    proof {
        machine.lemma_shape();
    }
    let value: u8 = if lit { 255 } else { 0 };
    let mut a: usize = 128;
    while a < 256
        invariant
            128 <= a <= 256,
            machine@ == (MachineState {
                memory: old(machine)@.memory.subrange(0, 128) + filled_display(lit).subrange(0, a - 128)
                    + old(machine)@.memory.subrange(a as int, 256),
                ..old(machine)@
            }),
            old(machine)@.memory.len() == 256,
            value == (if lit { 255u8 } else { 0u8 }),
        decreases 256 - a,
    {
        let ghost prev = machine@.memory;
        machine.set_memory(a as u8, value);
        proof {
            let om = old(machine)@.memory;
            let f = filled_display(lit);
            assert(prev =~= om.subrange(0, 128) + f.subrange(0, a - 128) + om.subrange(a as int, 256));
            assert(machine@.memory =~= om.subrange(0, 128) + f.subrange(0, a + 1 - 128) + om.subrange(a + 1, 256));
        }
        a = a + 1;
    }
    assert(filled_display(lit).subrange(0, 128) =~= filled_display(lit));
    assert(old(machine)@.memory.subrange(256, 256) =~= Seq::<u8>::empty());
    assert(machine@.memory =~= old(machine)@.memory.subrange(0, 128) + filled_display(lit));
}

/// Puts a display into the machine's memory, as loading a display image
/// does; nothing outside the display changes.
pub fn load_display_memory(machine: &mut BrookshearMachine, display: &[u8; 128])
    ensures
        final(machine)@ == (MachineState {
            memory: old(machine)@.memory.subrange(0, 128) + display@,
            ..old(machine)@
        }),
{
    proof {
        machine.lemma_shape();
    }
    let mut a: usize = 0;
    while a < 128
        invariant
            a <= 128,
            old(machine)@.memory.len() == 256,
            display@.len() == 128,
            machine@ == (MachineState {
                memory: old(machine)@.memory.subrange(0, 128) + display@.subrange(0, a as int)
                    + old(machine)@.memory.subrange(128 + a, 256),
                ..old(machine)@
            }),
        decreases 128 - a,
    {
        let ghost prev = machine@.memory;
        machine.set_memory((128 + a) as u8, display[a]);
        proof {
            let om = old(machine)@.memory;
            assert(prev =~= om.subrange(0, 128) + display@.subrange(0, a as int) + om.subrange(128 + a, 256));
            assert(machine@.memory =~= om.subrange(0, 128) + display@.subrange(0, a + 1) + om.subrange(128 + a + 1, 256));
        }
        a = a + 1;
    }
    assert(display@.subrange(0, 128) =~= display@);
    assert(old(machine)@.memory.subrange(256, 256) =~= Seq::<u8>::empty());
    assert(machine@.memory =~= old(machine)@.memory.subrange(0, 128) + display@);
}

} // verus!
