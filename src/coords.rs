//! The coordinate-list pattern format.
//!
//! Each line is a comment (its first byte is `#`), or two integers separated
//! by whitespace: the first is the column `x`, the second the row `y`. Any
//! other line, blank lines included, is skipped. An integer is an optional
//! sign followed by decimal digits, and must fit in an `i32`. Whitespace is
//! the ASCII space, tab, line feed, vertical tab, form feed and carriage return.

use vstd::prelude::*;

verus! {

/// Magnitudes are held up to this bound: anything above `2^31` is outside
/// the `i32` range whatever follows, so all such magnitudes act alike.
pub const MAG_CAP: u64 = 2147483649;

pub open spec fn is_space(c: u8) -> bool {
    c == 32 || (9 <= c && c <= 13)
}

pub open spec fn is_digit(c: u8) -> bool {
    48 <= c && c <= 57
}

/// The state of the scan after some prefix of the input.
pub struct CoordScan {
    /// Coordinates of the lines completed so far.
    pub out: Seq<(int, int)>,
    /// The current line is a comment.
    pub comment: bool,
    /// No byte of the current line has been read yet.
    pub line_start: bool,
    /// Fields of the current line read so far, counted up to 3.
    pub fields: int,
    pub a: int,
    pub b: int,
    /// A field of the current line was not an integer.
    pub line_bad: bool,
    /// Inside a field.
    pub in_field: bool,
    pub neg: bool,
    pub has_digit: bool,
    /// The field's digits as a number, capped at `MAG_CAP`.
    pub mag: int,
    /// The field holds a byte that no integer can hold there.
    pub field_bad: bool,
}

pub open spec fn scan_start() -> CoordScan {
    CoordScan {
        out: Seq::empty(),
        comment: false,
        line_start: true,
        fields: 0,
        a: 0,
        b: 0,
        line_bad: false,
        in_field: false,
        neg: false,
        has_digit: false,
        mag: 0,
        field_bad: false,
    }
}

/// The value of the field just read, if it is an integer in the `i32` range.
pub open spec fn field_value(st: CoordScan) -> Option<int> {
    if !st.field_bad && st.has_digit {
        let v = if st.neg { -st.mag } else { st.mag };
        if -0x8000_0000 <= v <= 0x7fff_ffff { Some(v) } else { None }
    } else {
        None
    }
}

pub open spec fn close_field(st: CoordScan) -> CoordScan {
    if !st.in_field {
        st
    } else {
        match field_value(st) {
            Some(v) => CoordScan {
                fields: if st.fields < 3 { st.fields + 1 } else { 3 },
                a: if st.fields == 0 { v } else { st.a },
                b: if st.fields == 1 { v } else { st.b },
                in_field: false,
                ..st
            },
            None => CoordScan { line_bad: true, in_field: false, ..st },
        }
    }
}

pub open spec fn close_line(st: CoordScan) -> CoordScan {
    let t = close_field(st);
    CoordScan {
        out: if !t.comment && !t.line_bad && t.fields == 2 { t.out.push((t.a, t.b)) } else { t.out },
        comment: false,
        line_start: true,
        fields: 0,
        line_bad: false,
        ..t
    }
}

pub open spec fn coord_step(st: CoordScan, c: u8) -> CoordScan {
    if c == 10 {
        close_line(st)
    } else if st.comment {
        st
    } else if st.line_start && c == 35 {
        CoordScan { comment: true, line_start: false, ..st }
    } else if is_space(c) {
        CoordScan { line_start: false, ..close_field(st) }
    } else if !st.in_field {
        CoordScan {
            line_start: false,
            in_field: true,
            neg: c == 45,
            has_digit: is_digit(c),
            mag: if is_digit(c) { c - 48 } else { 0 },
            field_bad: !(is_digit(c) || c == 43 || c == 45),
            ..st
        }
    } else if is_digit(c) {
        CoordScan {
            line_start: false,
            has_digit: true,
            mag: if st.mag * 10 + (c - 48) < MAG_CAP { st.mag * 10 + (c - 48) } else { MAG_CAP as int },
            ..st
        }
    } else {
        CoordScan { line_start: false, field_bad: true, ..st }
    }
}

/// The scan state after reading `s` from position `i` on, starting in `st`.
pub open spec fn coord_scan_from(s: Seq<u8>, i: int, st: CoordScan) -> CoordScan
    decreases s.len() - i,
{
    if i >= s.len() {
        st
    } else {
        coord_scan_from(s, i + 1, coord_step(st, s[i]))
    }
}

/// The coordinates `(x, y)` that a coordinate-list text holds, in the order
/// of its lines.
pub open spec fn coordinate_list(s: Seq<u8>) -> Seq<(int, int)> {
    close_line(coord_scan_from(s, 0, scan_start())).out
}

struct Scanner {
    comment: bool,
    line_start: bool,
    fields: u8,
    a: i32,
    b: i32,
    line_bad: bool,
    in_field: bool,
    neg: bool,
    has_digit: bool,
    mag: u64,
    field_bad: bool,
}

impl Scanner {
    spec fn state(&self, out: Seq<(i32, i32)>) -> CoordScan {
        CoordScan {
            out: out.map_values(|p: (i32, i32)| (p.0 as int, p.1 as int)),
            comment: self.comment,
            line_start: self.line_start,
            fields: self.fields as int,
            a: self.a as int,
            b: self.b as int,
            line_bad: self.line_bad,
            in_field: self.in_field,
            neg: self.neg,
            has_digit: self.has_digit,
            mag: self.mag as int,
            field_bad: self.field_bad,
        }
    }

    spec fn bounded(&self) -> bool {
        self.fields <= 3 && self.mag <= MAG_CAP
    }

    fn close_field(&mut self)
        requires
            old(self).bounded(),
        ensures
            final(self).bounded(),
            forall|out: Seq<(i32, i32)>| #[trigger] final(self).state(out) == close_field(old(self).state(out)),
    {
        if self.in_field {
            let value: Option<i32> = if self.field_bad || !self.has_digit {
                None
            } else if self.neg {
                if self.mag <= 0x8000_0000 { Some((0 - (self.mag as i64)) as i32) } else { None }
            } else {
                if self.mag <= 0x7fff_ffff { Some(self.mag as i32) } else { None }
            };
            match value {
                Some(v) => {
                    if self.fields == 0 {
                        self.a = v;
                    } else if self.fields == 1 {
                        self.b = v;
                    }
                    if self.fields < 3 {
                        self.fields = self.fields + 1;
                    }
                },
                None => {
                    self.line_bad = true;
                },
            }
            self.in_field = false;
        }
    }

    fn close_line(&mut self, out: &mut Vec<(i32, i32)>)
        requires
            old(self).bounded(),
        ensures
            final(self).bounded(),
            final(self).state(final(out)@) == close_line(old(self).state(old(out)@)),
    {
        self.close_field();
        let ghost mid = self.state(old(out)@);
        assert(mid == close_field(old(self).state(old(out)@)));
        if !self.comment && !self.line_bad && self.fields == 2 {
            out.push((self.a, self.b));
            proof {
                assert(out@.map_values(|p: (i32, i32)| (p.0 as int, p.1 as int))
                    =~= old(out)@.map_values(|p: (i32, i32)| (p.0 as int, p.1 as int)).push((self.a as int, self.b as int)));
            }
        }
        self.comment = false;
        self.line_start = true;
        self.fields = 0;
        self.line_bad = false;
        proof {
            assert(self.state(out@) =~= close_line(old(self).state(old(out)@)));
        }
    }

    fn step(&mut self, out: &mut Vec<(i32, i32)>, c: u8)
        requires
            old(self).bounded(),
        ensures
            final(self).bounded(),
            final(self).state(final(out)@) == coord_step(old(self).state(old(out)@), c),
    {
        if c == 10 {
            self.close_line(out);
        } else if self.comment {
        } else if self.line_start && c == 35 {
            self.comment = true;
            self.line_start = false;
        } else if c == 32 || (9 <= c && c <= 13) {
            self.close_field();
            proof {
                assert(self.state(out@) == close_field(old(self).state(old(out)@)));
            }
            self.line_start = false;
        } else if !self.in_field {
            let digit = 48 <= c && c <= 57;
            self.line_start = false;
            self.in_field = true;
            self.neg = c == 45;
            self.has_digit = digit;
            self.mag = if digit { (c - 48) as u64 } else { 0 };
            self.field_bad = !(digit || c == 43 || c == 45);
        } else if 48 <= c && c <= 57 {
            self.line_start = false;
            self.has_digit = true;
            let next = self.mag * 10 + (c - 48) as u64;
            self.mag = if next < MAG_CAP { next } else { MAG_CAP };
        } else {
            self.line_start = false;
            self.field_bad = true;
        }
    }
}

/// The coordinates `(x, y)` that a coordinate-list text holds, in the order
/// of its lines; malformed lines are skipped.
pub fn parse_coordinate_list(content: &[u8]) -> (r: Vec<(i32, i32)>)
    ensures
        r@.map_values(|p: (i32, i32)| (p.0 as int, p.1 as int)) == coordinate_list(content@),
{
    let mut out: Vec<(i32, i32)> = Vec::new();
    let mut sc = Scanner {
        comment: false,
        line_start: true,
        fields: 0,
        a: 0,
        b: 0,
        line_bad: false,
        in_field: false,
        neg: false,
        has_digit: false,
        mag: 0,
        field_bad: false,
    };
    proof {
        assert(out@.map_values(|p: (i32, i32)| (p.0 as int, p.1 as int)) =~= Seq::<(int, int)>::empty());
        assert(sc.state(out@) =~= scan_start());
    }
    let mut i: usize = 0;
    while i < content.len()
        invariant
            i <= content@.len(),
            sc.bounded(),
            coord_scan_from(content@, i as int, sc.state(out@)) == coord_scan_from(content@, 0, scan_start()),
        decreases content@.len() - i,
    {
        sc.step(&mut out, content[i]);
        i = i + 1;
    }
    sc.close_line(&mut out);
    out
}

} // verus!
