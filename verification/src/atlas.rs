//! The texture atlas: which rectangle of pixels shows which frame of which
//! sprite, and how the frames are named.

use vstd::prelude::*;
use crate::folder::{decimal_value, is_digit, lemma_decimal_prefix};

verus! {

/// A rectangle of pixels in the texture atlas.
#[derive(Clone, Copy, Debug, PartialEq, Eq, Structural)]
pub struct AtlasRect {
    pub x: u32,
    pub y: u32,
    pub w: u32,
    pub h: u32,
}

/// A frame of a sprite and its rectangle.
pub struct AtlasEntry {
    pub name: Vec<u8>,
    pub index: i32,
    pub rect: AtlasRect,
}

/// The rectangles of all known frames. A frame that is entered twice has
/// the rectangle that was entered last.
pub struct AtlasInfo {
    pub entries: Vec<AtlasEntry>,
}

/// The rectangle handed out for a frame that is not known.
pub open spec fn missing_rect() -> AtlasRect {
    AtlasRect { x: 0, y: 0, w: 1, h: 1 }
}

/// The frames entered by the first `n` entries, each with its rectangle.
pub open spec fn frames_of(entries: Seq<AtlasEntry>, n: int) -> Map<(Seq<u8>, i32), AtlasRect>
    decreases n,
{
    if n <= 0 {
        Map::empty()
    } else {
        frames_of(entries, n - 1).insert((entries[n - 1].name@, entries[n - 1].index), entries[n - 1].rect)
    }
}

/// Tells whether two byte strings are equal.
pub fn bytes_equal(a: &Vec<u8>, b: &Vec<u8>) -> (r: bool)
    ensures
        r == (a@ == b@),
{
    if a.len() != b.len() {
        return false;
    }
    let mut i: usize = 0;
    while i < a.len()
        invariant
            a@.len() == b@.len(),
            i <= a@.len(),
            forall|k: int| 0 <= k < i ==> a@[k] == b@[k],
        decreases a@.len() - i,
    {
        if a[i] != b[i] {
            return false;
        }
        i += 1;
    }
    assert(a@ =~= b@);
    true
}

impl AtlasInfo {
    /// The known frames with their rectangles.
    pub open spec fn frames(&self) -> Map<(Seq<u8>, i32), AtlasRect> {
        frames_of(self.entries@, self.entries@.len() as int)
    }

    /// An atlas without frames.
    pub fn new() -> (a: AtlasInfo)
        ensures
            a.frames() == Map::<(Seq<u8>, i32), AtlasRect>::empty(),
    {
        AtlasInfo { entries: Vec::new() }
    }

    /// Enters a frame of a sprite with its rectangle.
    pub fn insert(&mut self, name: Vec<u8>, index: i32, rect: AtlasRect)
        ensures
            final(self).frames() == old(self).frames().insert((name@, index), rect),
    {
        let ghost before = self.entries@;
        self.entries.push(AtlasEntry { name, index, rect });
        proof {
            lemma_frames_of_prefix(before, self.entries@, before.len() as int);
        }
    }

    /// The rectangle of frame `frame_i` of the sprite `sprite`; for a frame
    /// that is not known, a rectangle of one pixel at the origin.
    pub fn get_rect(&self, sprite: &Vec<u8>, frame_i: i32) -> (r: AtlasRect)
        ensures
            r == (if self.frames().contains_key((sprite@, frame_i)) {
                self.frames()[(sprite@, frame_i)]
            } else {
                missing_rect()
            }),
    {
        let mut i: usize = self.entries.len();
        while i > 0
            invariant
                i <= self.entries@.len(),
                self.frames().contains_key((sprite@, frame_i)) == frames_of(
                    self.entries@,
                    i as int,
                ).contains_key((sprite@, frame_i)),
                self.frames().contains_key((sprite@, frame_i)) ==> self.frames()[(sprite@, frame_i)]
                    == frames_of(self.entries@, i as int)[(sprite@, frame_i)],
            decreases i,
        {
            i -= 1;
            let e = &self.entries[i];
            if e.index == frame_i && bytes_equal(&e.name, sprite) {
                return e.rect;
            }
        }
        AtlasRect { x: 0, y: 0, w: 1, h: 1 }
    }
}

/// The frames entered by the first `n` entries do not depend on what comes
/// after them.
pub proof fn lemma_frames_of_prefix(a: Seq<AtlasEntry>, b: Seq<AtlasEntry>, n: int)
    requires
        0 <= n <= a.len(),
        n <= b.len(),
        forall|i: int| 0 <= i < n ==> a[i] == b[i],
    ensures
        frames_of(a, n) == frames_of(b, n),
    decreases n,
{
    if n > 0 {
        lemma_frames_of_prefix(a, b, n - 1);
    }
}

/// The bytes of `.aseprite`.
pub open spec fn frame_suffix() -> Seq<u8> {
    seq![46u8, 97u8, 115u8, 101u8, 112u8, 114u8, 105u8, 116u8, 101u8]
}

/// True when every byte of `s` is a digit.
pub open spec fn all_digits(s: Seq<u8>) -> bool {
    forall|i: int| 0 <= i < s.len() ==> is_digit(#[trigger] s[i])
}

/// True when a text starts with `+` or `-`.
pub open spec fn has_sign(text: Seq<u8>) -> bool {
    text.len() > 0 && (text[0] == 43 || text[0] == 45)
}

/// A text without its sign, if it has one.
pub open spec fn unsigned_part(text: Seq<u8>) -> Seq<u8> {
    if has_sign(text) {
        text.subrange(1, text.len() as int)
    } else {
        text
    }
}

/// The number that a text writes, if it writes one that fits `i32`: an
/// optional sign, `+` or `-`, and then one or more digits.
pub open spec fn parsed_i32(text: Seq<u8>) -> Option<i32> {
    let digits = unsigned_part(text);
    let value = if has_sign(text) && text[0] == 45 {
        -(decimal_value(digits) as int)
    } else {
        decimal_value(digits) as int
    };
    if digits.len() > 0 && all_digits(digits) && i32::MIN <= value <= i32::MAX {
        Some(value as i32)
    } else {
        None
    }
}

/// Reads a number with an optional sign from a part of a text.
pub fn parse_i32(text: &Vec<u8>, from: usize, to: usize) -> (r: Option<i32>)
    requires
        from <= to <= text@.len(),
    ensures
        r == parsed_i32(text@.subrange(from as int, to as int)),
{
    let ghost part = text@.subrange(from as int, to as int);
    if from == to {
        return None;
    }
    let signed = text[from] == 43 || text[from] == 45;
    let negative = text[from] == 45;
    assert(part[0] == text@[from as int]);
    let start: usize = if signed { from + 1 } else { from };
    let ghost digits = text@.subrange(start as int, to as int);
    assert(signed == has_sign(part));
    assert(digits =~= unsigned_part(part));
    if start == to {
        return None;
    }
    let mut acc: i64 = 0;
    let mut i: usize = start;
    assert(digits.subrange(0, 0) =~= Seq::<u8>::empty());
    while i < to
        invariant
            from <= start <= i <= to <= text@.len(),
            part == text@.subrange(from as int, to as int),
            part.len() > 0,
            signed == has_sign(part),
            digits == unsigned_part(part),
            digits == text@.subrange(start as int, to as int),
            forall|k: int| 0 <= k < i - start ==> is_digit(#[trigger] digits[k]),
            acc == decimal_value(digits.subrange(0, i - start)),
            0 <= acc <= 0x8000_0000,
        decreases to - i,
    {
        let b = text[i];
        assert(digits[i - start] == b);
        if b < 48 || b > 57 {
            assert(!is_digit(digits[i - start]));
            return None;
        }
        let d: i64 = (b - 48) as i64;
        proof {
            let next = digits.subrange(0, i - start + 1);
            assert(next.drop_last() =~= digits.subrange(0, i - start));
            assert(next.last() == b);
            assert(decimal_value(next) == acc * 10 + d);
            lemma_decimal_prefix(digits, i - start + 1);
        }
        acc = acc * 10 + d;
        if acc > 0x8000_0000 {
            return None;
        }
        i += 1;
    }
    assert(digits.subrange(0, to - start) =~= digits);
    if negative {
        Some((-acc) as i32)
    } else if acc > 0x7fff_ffff {
        None
    } else {
        Some(acc as i32)
    }
}

/// True when `stem` has a space at `at` and none after it.
pub open spec fn last_space(stem: Seq<u8>, at: int) -> bool {
    &&& 0 <= at < stem.len()
    &&& stem[at] == 32
    &&& forall|i: int| at < i < stem.len() ==> #[trigger] stem[i] != 32
}

/// What the name of a frame's file says, when it has the form
/// `<sprite> <number>.aseprite`: the sprite and the number. The sprite is
/// what stands before the last space.
pub open spec fn frame_key(file_name: Seq<u8>, sprite: Seq<u8>, index: i32) -> bool {
    let stem = file_name.subrange(0, file_name.len() - 9);
    &&& file_name.len() >= 9
    &&& file_name.subrange(file_name.len() - 9, file_name.len() as int) == frame_suffix()
    &&& exists|at: int|
        #[trigger] last_space(stem, at) && sprite == stem.subrange(0, at) && parsed_i32(
            stem.subrange(at + 1, stem.len() as int),
        ) == Some(index)
}

/// Reads the sprite and the frame number from the name of a frame's file.
/// Nothing for a name of another form.
pub fn parse_frame_name(file_name: &Vec<u8>) -> (r: Option<(Vec<u8>, i32)>)
    ensures
        match r {
            Some((sprite, index)) => frame_key(file_name@, sprite@, index),
            None => forall|sprite: Seq<u8>, index: i32| !frame_key(file_name@, sprite, index),
        },
{
    let n = file_name.len();
    if n < 9 {
        return None;
    }
    let ghost tail = file_name@.subrange(n - 9, n as int);
    if file_name[n - 9] != 46 || file_name[n - 8] != 97 || file_name[n - 7] != 115 || file_name[n
        - 6] != 101 || file_name[n - 5] != 112 || file_name[n - 4] != 114 || file_name[n - 3] != 105
        || file_name[n - 2] != 116 || file_name[n - 1] != 101 {
        assert(tail[0] == file_name@[n - 9]);
        assert(tail[1] == file_name@[n - 8]);
        assert(tail[2] == file_name@[n - 7]);
        assert(tail[3] == file_name@[n - 6]);
        assert(tail[4] == file_name@[n - 5]);
        assert(tail[5] == file_name@[n - 4]);
        assert(tail[6] == file_name@[n - 3]);
        assert(tail[7] == file_name@[n - 2]);
        assert(tail[8] == file_name@[n - 1]);
        return None;
    }
    assert(tail =~= frame_suffix());
    let m: usize = n - 9;
    let ghost stem = file_name@.subrange(0, m as int);
    let mut at: usize = m;
    while at > 0 && file_name[at - 1] != 32
        invariant
            at <= m,
            m == n - 9,
            n == file_name@.len(),
            stem == file_name@.subrange(0, m as int),
            forall|i: int| at <= i < m ==> #[trigger] stem[i] != 32,
        decreases at,
    {
        at -= 1;
    }
    if at == 0 {
        assert forall|sprite: Seq<u8>, index: i32| !frame_key(file_name@, sprite, index) by {
            assert forall|p: int| !last_space(stem, p) by {
                if 0 <= p < stem.len() {
                    assert(stem[p] != 32);
                }
            }
        }
        return None;
    }
    let space: usize = at - 1;
    assert(last_space(stem, space as int));
    assert forall|p: int| last_space(stem, p) implies p == space by {
        if p < space {
            assert(stem[space as int] != 32);
        } else if p > space {
            assert(stem[p] != 32);
        }
    }
    assert(stem.subrange(space + 1, stem.len() as int) =~= file_name@.subrange(space + 1, m as int));
    match parse_i32(file_name, at, m) {
        Some(index) => {
            let mut sprite: Vec<u8> = Vec::new();
            let mut i: usize = 0;
            while i < space
                invariant
                    i <= space < file_name@.len(),
                    sprite@ == file_name@.subrange(0, i as int),
                decreases space - i,
            {
                sprite.push(file_name[i]);
                assert(sprite@ =~= file_name@.subrange(0, i + 1));
                i += 1;
            }
            assert(sprite@ =~= stem.subrange(0, space as int));
            Some((sprite, index))
        },
        None => None,
    }
}

} // verus!
