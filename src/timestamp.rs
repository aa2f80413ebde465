use vstd::prelude::*;

verus! {

/// A UTC instant held as calendar fields.
#[derive(Clone, Copy, Debug, PartialEq, Eq)]
pub struct Timestamp {
    pub year: i32,
    pub month: u8,
    pub day: u8,
    pub hour: u8,
    pub minute: u8,
    pub second: u8,
    pub nanos: u32,
}

impl Timestamp {
    /// The fields name a real calendar position.
    pub open spec fn wf(self) -> bool {
        &&& 0 <= self.year <= 9999
        &&& 1 <= self.month <= 12
        &&& 1 <= self.day <= 31
        &&& self.hour < 24
        &&& self.minute < 60
        &&& self.second < 60
        &&& self.nanos < 1_000_000_000
    }

    /// Chronological position as one integer: later instants have larger keys.
    pub open spec fn key(self) -> int {
        (((((self.year as int * 13 + self.month as int) * 32 + self.day as int) * 24
            + self.hour as int) * 60 + self.minute as int) * 60 + self.second as int)
            * 1_000_000_000 + self.nanos as int
    }

    /// Whether `self` is not later than `other`.
    pub fn not_after(&self, other: &Timestamp) -> (r: bool)
        requires
            self.wf(),
            other.wf(),
        ensures
            r == (self.key() <= other.key()),
    {
        proof {
            lemma_key_lexicographic(*self, *other);
        }
        if self.year != other.year {
            self.year < other.year
        } else if self.month != other.month {
            self.month < other.month
        } else if self.day != other.day {
            self.day < other.day
        } else if self.hour != other.hour {
            self.hour < other.hour
        } else if self.minute != other.minute {
            self.minute < other.minute
        } else if self.second != other.second {
            self.second < other.second
        } else {
            self.nanos <= other.nanos
        }
    }
}

/// The key orders well-formed timestamps field by field.
proof fn lemma_key_lexicographic(a: Timestamp, b: Timestamp)
    requires
        a.wf(),
        b.wf(),
    ensures
        a.year != b.year ==> (a.key() <= b.key() <==> a.year < b.year),
        a.year == b.year && a.month != b.month ==> (a.key() <= b.key() <==> a.month < b.month),
        a.year == b.year && a.month == b.month && a.day != b.day ==> (a.key() <= b.key()
            <==> a.day < b.day),
        a.year == b.year && a.month == b.month && a.day == b.day && a.hour != b.hour ==> (
        a.key() <= b.key() <==> a.hour < b.hour),
        a.year == b.year && a.month == b.month && a.day == b.day && a.hour == b.hour
            && a.minute != b.minute ==> (a.key() <= b.key() <==> a.minute < b.minute),
        a.year == b.year && a.month == b.month && a.day == b.day && a.hour == b.hour
            && a.minute == b.minute && a.second != b.second ==> (a.key() <= b.key() <==> a.second
            < b.second),
        a.year == b.year && a.month == b.month && a.day == b.day && a.hour == b.hour
            && a.minute == b.minute && a.second == b.second ==> (a.key() <= b.key() <==> a.nanos
            <= b.nanos),
{
    let ka = (((((a.year as int * 13 + a.month as int) * 32 + a.day as int) * 24 + a.hour as int)
        * 60 + a.minute as int) * 60 + a.second as int);
    let kb = (((((b.year as int * 13 + b.month as int) * 32 + b.day as int) * 24 + b.hour as int)
        * 60 + b.minute as int) * 60 + b.second as int);
    assert(a.key() == ka * 1_000_000_000 + a.nanos as int);
    assert(b.key() == kb * 1_000_000_000 + b.nanos as int);
    assert(ka != kb ==> (a.key() <= b.key() <==> ka < kb)) by (nonlinear_arith)
        requires
            a.key() == ka * 1_000_000_000 + a.nanos as int,
            b.key() == kb * 1_000_000_000 + b.nanos as int,
            0 <= a.nanos < 1_000_000_000,
            0 <= b.nanos < 1_000_000_000,
    ;
    let ya = a.year as int * 13 + a.month as int;
    let yb = b.year as int * 13 + b.month as int;
    let da = ya * 32 + a.day as int;
    let db = yb * 32 + b.day as int;
    let ha = da * 24 + a.hour as int;
    let hb = db * 24 + b.hour as int;
    let ma = ha * 60 + a.minute as int;
    let mb = hb * 60 + b.minute as int;
    assert(ka == ma * 60 + a.second as int);
    assert(kb == mb * 60 + b.second as int);
    assert(ma != mb ==> (ka < kb <==> ma < mb)) by (nonlinear_arith)
        requires
            ka == ma * 60 + a.second as int,
            kb == mb * 60 + b.second as int,
            0 <= a.second < 60,
            0 <= b.second < 60,
    ;
    assert(ha != hb ==> (ma < mb <==> ha < hb)) by (nonlinear_arith)
        requires
            ma == ha * 60 + a.minute as int,
            mb == hb * 60 + b.minute as int,
            0 <= a.minute < 60,
            0 <= b.minute < 60,
    ;
    assert(da != db ==> (ha < hb <==> da < db)) by (nonlinear_arith)
        requires
            ha == da * 24 + a.hour as int,
            hb == db * 24 + b.hour as int,
            0 <= a.hour < 24,
            0 <= b.hour < 24,
    ;
    assert(ya != yb ==> (da < db <==> ya < yb)) by (nonlinear_arith)
        requires
            da == ya * 32 + a.day as int,
            db == yb * 32 + b.day as int,
            1 <= a.day <= 31,
            1 <= b.day <= 31,
    ;
    assert(a.year != b.year ==> (ya < yb <==> a.year < b.year)) by (nonlinear_arith)
        requires
            ya == a.year as int * 13 + a.month as int,
            yb == b.year as int * 13 + b.month as int,
            1 <= a.month <= 12,
            1 <= b.month <= 12,
    ;
}

} // verus!
