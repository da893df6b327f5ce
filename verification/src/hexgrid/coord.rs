//! Axial coordinates on a hexagonal grid.
use super::text::{
    int_text, is_digit, lemma_int_text_roundtrip, parse_i32_chars, parse_i32_text, push_i32_text,
    str_chars,
};
use vstd::math::abs;
use vstd::prelude::*;
use vstd::string::*;

verus! {

/// A position on a hexagonal grid in axial coordinates; the third cube coordinate is
/// `s = -q - r`. See https://www.redblobgames.com/grids/hexagons/#coordinates
#[derive(Copy, Clone, Debug, Ord, PartialOrd, Eq, PartialEq, Hash, Default, Structural)]
pub struct HexCoord {
    pub q: i32,
    pub r: i32,
}

/// `x` fits in an `i32`.
pub open spec fn in_i32(x: int) -> bool {
    i32::MIN <= x <= i32::MAX
}

/// The axial coordinate with the given components.
pub open spec fn hex(q: int, r: int) -> HexCoord {
    HexCoord { q: q as i32, r: r as i32 }
}

/// Number of steps between two positions on the grid.
pub open spec fn hex_distance(a: HexCoord, b: HexCoord) -> int {
    ((abs(a.q - b.q) + abs(a.q + a.r - b.q - b.r) + abs(a.r - b.r)) / 2) as int
}

/// The six directions, in the order in which neighbours are listed.
pub open spec fn neighbour_offset(i: int) -> HexCoord {
    if i == 0 { hex(1, 0) }
    else if i == 1 { hex(0, 1) }
    else if i == 2 { hex(-1, 1) }
    else if i == 3 { hex(-1, 0) }
    else if i == 4 { hex(0, -1) }
    else { hex(1, -1) }
}

/// The direction opposite to direction `d`.
pub open spec fn opposite_direction(d: int) -> int {
    (d + 3) % 6
}

/// The offset of the opposite direction is the negated offset, and the opposite of the opposite
/// is the direction itself.
pub proof fn lemma_opposite_direction(d: int)
    requires
        0 <= d < 6,
    ensures
        0 <= opposite_direction(d) < 6,
        opposite_direction(opposite_direction(d)) == d,
        neighbour_offset(opposite_direction(d)) == hex(-neighbour_offset(d).q, -neighbour_offset(d).r),
{
    assert(d == 0 || d == 1 || d == 2 || d == 3 || d == 4 || d == 5);
}

/// The text of a coordinate: `q`, the q component, `r`, the r component.
pub open spec fn coord_text(c: HexCoord) -> Seq<char> {
    seq!['q'] + int_text(c.q as int) + seq!['r'] + int_text(c.r as int)
}

/// `k` is the position of the first `r` in `s`.
pub open spec fn is_first_r(s: Seq<char>, k: int) -> bool {
    0 <= k < s.len() && s[k] == 'r' && forall|j: int| 0 <= j < k ==> s[j] != 'r'
}

/// The position of the first `r` in `s`, if there is one.
pub open spec fn first_r(s: Seq<char>) -> Option<int> {
    if exists|k: int| 0 <= k < s.len() && s[k] == 'r' {
        Some(choose|k: int| is_first_r(s, k))
    } else {
        None
    }
}

/// What reading a coordinate from its text gives: the coordinate, or the number of the first
/// check that failed (0: no leading `q`; 1: no `r`; 2: bad q component; 3: bad r component).
pub open spec fn parse_coord(s: Seq<char>) -> Result<HexCoord, int> {
    if s.len() == 0 || s[0] != 'q' {
        Err(0)
    } else {
        match first_r(s) {
            None => Err(1),
            Some(p) => match parse_i32_text(s.subrange(1, p)) {
                None => Err(2),
                Some(q) => match parse_i32_text(s.subrange(p + 1, s.len() as int)) {
                    None => Err(3),
                    Some(r) => Ok(HexCoord { q, r }),
                },
            },
        }
    }
}

/// The message of each failed check of `parse_coord`.
pub open spec fn coord_error_message(code: int) -> Seq<char> {
    if code == 0 {
        "Coordinate does not start with `q`"@
    } else if code == 1 {
        "Coordinate does not have a `r` separator"@
    } else if code == 2 {
        "Coordinate q-component is not a valid integer"@
    } else {
        "Coordinate r-component is not a valid integer"@
    }
}

/// A first `r`, when there is one, is found by `first_r`.
proof fn lemma_first_r(s: Seq<char>, k: int)
    requires
        is_first_r(s, k),
    ensures
        first_r(s) == Some(k),
{
    let c = choose|j: int| is_first_r(s, j);
    assert(is_first_r(s, c));
    if c < k {
        assert(s[c] != 'r');
    } else if c > k {
        assert(s[k] != 'r');
    }
}

/// Reading a coordinate back from its text gives the same coordinate.
pub proof fn lemma_text_roundtrip(c: HexCoord)
    ensures
        parse_coord(coord_text(c)) == Ok::<HexCoord, int>(c),
{
    let tq = int_text(c.q as int);
    let tr = int_text(c.r as int);
    let t = coord_text(c);
    lemma_int_text_roundtrip(c.q);
    lemma_int_text_roundtrip(c.r);
    let p: int = tq.len() + 1int;
    assert(t[p] == 'r');
    assert forall|j: int| 0 <= j < p implies t[j] != 'r' by {
        if j > 0 {
            assert(t[j] == tq[j - 1]);
            let ch = tq[j - 1];
            assert(ch == '-' || is_digit(ch));
        }
    }
    lemma_first_r(t, p);
    assert(t.subrange(1, p) =~= tq);
    assert(t.subrange(p + 1, t.len() as int) =~= tr);
}

/// Every neighbour of a position is one step away from it, and a position is at no distance
/// from itself.
pub proof fn lemma_neighbour_distance(c: HexCoord, i: int)
    requires
        0 <= i < 6,
        i32::MIN < c.q < i32::MAX,
        i32::MIN < c.r < i32::MAX,
    ensures
        hex_distance(c, hex(c.q + neighbour_offset(i).q, c.r + neighbour_offset(i).r)) == 1,
        hex_distance(c, c) == 0,
{
    assert(i == 0 || i == 1 || i == 2 || i == 3 || i == 4 || i == 5);
}

/// The distance between two positions is the number of steps between them: it is zero only
/// from a position to itself, one step to a neighbour changes it by at most one, and from any
/// other position some neighbour is one step closer.
pub proof fn lemma_distance_counts_steps(a: HexCoord, b: HexCoord)
    requires
        -0x4000_0000 <= a.q <= 0x4000_0000,
        -0x4000_0000 <= a.r <= 0x4000_0000,
        -0x4000_0000 <= b.q <= 0x4000_0000,
        -0x4000_0000 <= b.r <= 0x4000_0000,
    ensures
        hex_distance(a, b) == 0 <==> a == b,
        hex_distance(a, b) == hex_distance(b, a),
        forall|i: int| 0 <= i < 6 ==> {
            let n = #[trigger] hex(a.q + neighbour_offset(i).q, a.r + neighbour_offset(i).r);
            hex_distance(a, b) - 1 <= hex_distance(n, b) <= hex_distance(a, b) + 1
        },
        a != b ==> exists|i: int| 0 <= i < 6 && hex_distance(
            #[trigger] hex(a.q + neighbour_offset(i).q, a.r + neighbour_offset(i).r),
            b,
        ) == hex_distance(a, b) - 1,
{
    let dq = b.q - a.q;
    let dr = b.r - a.r;
    let ds = -dq - dr;
    assert forall|i: int| 0 <= i < 6 implies {
        let n = #[trigger] hex(a.q + neighbour_offset(i).q, a.r + neighbour_offset(i).r);
        hex_distance(a, b) - 1 <= hex_distance(n, b) <= hex_distance(a, b) + 1
    } by {
        assert(i == 0 || i == 1 || i == 2 || i == 3 || i == 4 || i == 5);
    }
    if a != b {
        let i: int = if dq > 0 && dr < 0 {
            5
        } else if dq > 0 && ds < 0 {
            0
        } else if dr > 0 && ds < 0 {
            1
        } else if dr > 0 && dq < 0 {
            2
        } else if ds > 0 && dq < 0 {
            3
        } else {
            4
        };
        assert(hex_distance(hex(a.q + neighbour_offset(i).q, a.r + neighbour_offset(i).r), b) == hex_distance(a, b)
            - 1);
    }
}

impl HexCoord {
    /// The origin.
    pub fn zero() -> (c: Self)
        ensures
            c == hex(0, 0),
    {
        HexCoord { q: 0, r: 0 }
    }

    /// The cube coordinate `s = -q - r`.
    pub open spec fn spec_s(self) -> int {
        -self.q - self.r
    }

    /// Steps from the origin.
    pub open spec fn spec_length(self) -> int {
        ((abs(self.q as int) + abs(self.q + self.r) + abs(self.r as int)) / 2) as int
    }

    /// `q`, `r` and `s` all have magnitude at most `i32::MAX`, so negating any of them is safe.
    pub open spec fn cube_in_range(self) -> bool {
        self.q > i32::MIN && self.r > i32::MIN && in_i32(self.spec_s()) && self.spec_s() > i32::MIN
    }

    pub fn new(q: i32, r: i32) -> (c: Self)
        ensures
            c == hex(q as int, r as int),
    {
        HexCoord { q, r }
    }

    /// The coordinate with the given `r` and `s` components.
    pub fn new_rs(r: i32, s: i32) -> (c: Self)
        requires
            s > i32::MIN,
            in_i32(-s - r),
        ensures
            c.r == r,
            c.spec_s() == s,
    {
        HexCoord { q: -s - r, r }
    }

    /// The coordinate with the given `q` and `s` components.
    pub fn new_qs(q: i32, s: i32) -> (c: Self)
        requires
            q > i32::MIN,
            in_i32(-q - s),
        ensures
            c.q == q,
            c.spec_s() == s,
    {
        HexCoord { q, r: -q - s }
    }

    /// Compute the S component of the equivalent cube coordinate.
    pub fn s(&self) -> (s: i32)
        requires
            self.q > i32::MIN,
            in_i32(self.spec_s()),
        ensures
            s == self.spec_s(),
    {
        -self.q - self.r
    }

    /// Number of steps from the origin.
    pub fn length(&self) -> (n: u32)
        requires
            in_i32(self.q + self.r),
            abs(self.q as int) + abs(self.q + self.r) + abs(self.r as int) <= u32::MAX,
        ensures
            n == self.spec_length(),
    {
        let q = self.q as i64;
        let r = self.r as i64;
        let aq: i64 = if q < 0 { -q } else { q };
        let ar: i64 = if r < 0 { -r } else { r };
        let aqr: i64 = if q + r < 0 { -(q + r) } else { q + r };
        ((aq + aqr + ar) as u32) / 2
    }

    /// Number of steps between `self` and `other`.
    pub fn distance(&self, other: Self) -> (n: u32)
        requires
            in_i32(self.q - other.q),
            in_i32(self.r - other.r),
            in_i32(self.q - other.q + self.r - other.r),
            abs(self.q - other.q) + abs(self.q - other.q + self.r - other.r) + abs(self.r - other.r) <= u32::MAX,
        ensures
            n == hex_distance(*self, other),
    {
        self.minus(other).length()
    }

    /// The component-wise sum.
    pub fn plus(self, other: Self) -> (c: Self)
        requires
            in_i32(self.q + other.q),
            in_i32(self.r + other.r),
        ensures
            c == hex(self.q + other.q, self.r + other.r),
    {
        HexCoord { q: self.q + other.q, r: self.r + other.r }
    }

    /// The component-wise difference.
    pub fn minus(self, other: Self) -> (c: Self)
        requires
            in_i32(self.q - other.q),
            in_i32(self.r - other.r),
        ensures
            c == hex(self.q - other.q, self.r - other.r),
    {
        HexCoord { q: self.q - other.q, r: self.r - other.r }
    }

    /// Both components multiplied by `scale`.
    pub fn times(self, scale: i32) -> (c: Self)
        requires
            in_i32(self.q * scale),
            in_i32(self.r * scale),
        ensures
            c == hex(self.q * scale, self.r * scale),
    {
        HexCoord { q: self.q * scale, r: self.r * scale }
    }

    /// The offset to the `i`th neighbour.
    pub fn neighbour_offset(i: usize) -> (c: Self)
        requires
            i < 6,
        ensures
            c == neighbour_offset(i as int),
    {
        if i == 0 { HexCoord::new(1, 0) }
        else if i == 1 { HexCoord::new(0, 1) }
        else if i == 2 { HexCoord::new(-1, 1) }
        else if i == 3 { HexCoord::new(-1, 0) }
        else if i == 4 { HexCoord::new(0, -1) }
        else { HexCoord::new(1, -1) }
    }

    /// The six neighbours, in the order of the directions.
    pub fn neighbours(&self) -> (v: Vec<HexCoord>)
        requires
            i32::MIN < self.q < i32::MAX,
            i32::MIN < self.r < i32::MAX,
        ensures
            v@.len() == 6,
            forall|i: int| 0 <= i < 6 ==> #[trigger] v@[i] == hex(
                self.q + neighbour_offset(i).q,
                self.r + neighbour_offset(i).r,
            ),
    {
        let mut v: Vec<HexCoord> = Vec::new();
        let mut i: usize = 0;
        while i < 6
            invariant
                i <= 6,
                i32::MIN < self.q < i32::MAX,
                i32::MIN < self.r < i32::MAX,
                v@.len() == i,
                forall|j: int| 0 <= j < i ==> #[trigger] v@[j] == hex(
                    self.q + neighbour_offset(j).q,
                    self.r + neighbour_offset(j).r,
                ),
            decreases 6 - i,
        {
            v.push(self.plus(HexCoord::neighbour_offset(i)));
            i = i + 1;
        }
        v
    }

    /// The text `q{q}r{r}`, as the coordinate is displayed.
    pub fn to_string(&self) -> (text: String)
        ensures
            text@ == coord_text(*self),
    {
        let mut text = String::new();
        proof {
            reveal_strlit("q");
            reveal_strlit("r");
        }
        text.append("q");
        push_i32_text(&mut text, self.q);
        text.append("r");
        push_i32_text(&mut text, self.r);
        assert(text@ =~= coord_text(*self));
        text
    }

    /// Reads a coordinate from text of the form `q{q}r{r}`, the text `to_string` gives.
    pub fn parse_text(string: &str) -> (res: Result<HexCoord, &'static str>)
        ensures
            match res {
                Ok(c) => parse_coord(string@) == Ok::<HexCoord, int>(c),
                Err(e) => parse_coord(string@) is Err && e@ == coord_error_message(
                    parse_coord(string@)->Err_0,
                ),
            },
    {
        let chars = str_chars(string);
        let n = chars.len();
        if n == 0 || chars[0] != 'q' {
            return Err("Coordinate does not start with `q`");
        }
        let mut p: usize = 0;
        while p < n && chars[p] != 'r'
            invariant
                p <= n == chars@.len(),
                chars@ == string@,
                forall|j: int| 0 <= j < p ==> chars@[j] != 'r',
            decreases n - p,
        {
            p = p + 1;
        }
        if p == n {
            assert(!(exists|k: int| 0 <= k < chars@.len() && chars@[k] == 'r'));
            return Err("Coordinate does not have a `r` separator");
        }
        proof {
            lemma_first_r(string@, p as int);
        }
        let q = match parse_i32_chars(&chars, 1, p) {
            Some(q) => q,
            None => {
                return Err("Coordinate q-component is not a valid integer");
            },
        };
        let r = match parse_i32_chars(&chars, p + 1, n) {
            Some(r) => r,
            None => {
                return Err("Coordinate r-component is not a valid integer");
            },
        };
        Ok(HexCoord::new(q, r))
    }
}

impl std::str::FromStr for HexCoord {
    type Err = &'static str;

    fn from_str(string: &str) -> (res: Result<Self, Self::Err>)
        ensures
            match res {
                Ok(c) => parse_coord(string@) == Ok::<HexCoord, int>(c),
                Err(e) => parse_coord(string@) is Err && e@ == coord_error_message(parse_coord(string@)->Err_0),
            },
    {
        HexCoord::parse_text(string)
    }
}

/// Construct axial coordinate from a (q,r) tuple
impl From<(i32, i32)> for HexCoord {
    fn from(t: (i32, i32)) -> (c: Self) {
        HexCoord { q: t.0, r: t.1 }
    }
}

impl vstd::std_specs::convert::FromSpecImpl<(i32, i32)> for HexCoord {
    open spec fn obeys_from_spec() -> bool {
        true
    }

    open spec fn from_spec(t: (i32, i32)) -> HexCoord {
        HexCoord { q: t.0, r: t.1 }
    }
}

} // verus!
