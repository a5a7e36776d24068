//! The English names of months and days of the week.
use vstd::prelude::*;

verus! {

/// The three-letter English name of month `m` (1 to 12), as bytes.
pub open spec fn month_name(m: int) -> Seq<u8> {
    if m == 1 {
        seq![74u8, 97u8, 110u8]  // Jan
    } else if m == 2 {
        seq![70u8, 101u8, 98u8]  // Feb
    } else if m == 3 {
        seq![77u8, 97u8, 114u8]  // Mar
    } else if m == 4 {
        seq![65u8, 112u8, 114u8]  // Apr
    } else if m == 5 {
        seq![77u8, 97u8, 121u8]  // May
    } else if m == 6 {
        seq![74u8, 117u8, 110u8]  // Jun
    } else if m == 7 {
        seq![74u8, 117u8, 108u8]  // Jul
    } else if m == 8 {
        seq![65u8, 117u8, 103u8]  // Aug
    } else if m == 9 {
        seq![83u8, 101u8, 112u8]  // Sep
    } else if m == 10 {
        seq![79u8, 99u8, 116u8]  // Oct
    } else if m == 11 {
        seq![78u8, 111u8, 118u8]  // Nov
    } else {
        seq![68u8, 101u8, 99u8]  // Dec
    }
}

/// The three-letter English name of the day with index `w` (0 for Monday),
/// as bytes.
pub open spec fn weekday_name(w: int) -> Seq<u8> {
    if w == 0 {
        seq![77u8, 111u8, 110u8]  // Mon
    } else if w == 1 {
        seq![84u8, 117u8, 101u8]  // Tue
    } else if w == 2 {
        seq![87u8, 101u8, 100u8]  // Wed
    } else if w == 3 {
        seq![84u8, 104u8, 117u8]  // Thu
    } else if w == 4 {
        seq![70u8, 114u8, 105u8]  // Fri
    } else if w == 5 {
        seq![83u8, 97u8, 116u8]  // Sat
    } else {
        seq![83u8, 117u8, 110u8]  // Sun
    }
}

/// The month whose name is `s`, or 0 when none is.
pub open spec fn month_of_name(s: Seq<u8>) -> int {
    if exists|m: int| 1 <= m <= 12 && month_name(m) == s {
        choose|m: int| 1 <= m <= 12 && month_name(m) == s
    } else {
        0
    }
}

/// The index of the day whose name is `s`, or 7 when none is.
pub open spec fn weekday_of_name(s: Seq<u8>) -> int {
    if exists|w: int| 0 <= w <= 6 && weekday_name(w) == s {
        choose|w: int| 0 <= w <= 6 && weekday_name(w) == s
    } else {
        7
    }
}

/// The name of month `m`.
pub(crate) fn month_name_bytes(m: u8) -> (r: (u8, u8, u8))
    requires
        1 <= m <= 12,
    ensures
        seq![r.0, r.1, r.2] == month_name(m as int),
{
    match m {
        1 => (74u8, 97u8, 110u8),
        2 => (70u8, 101u8, 98u8),
        3 => (77u8, 97u8, 114u8),
        4 => (65u8, 112u8, 114u8),
        5 => (77u8, 97u8, 121u8),
        6 => (74u8, 117u8, 110u8),
        7 => (74u8, 117u8, 108u8),
        8 => (65u8, 117u8, 103u8),
        9 => (83u8, 101u8, 112u8),
        10 => (79u8, 99u8, 116u8),
        11 => (78u8, 111u8, 118u8),
        _ => (68u8, 101u8, 99u8),
    }
}

/// The name of the day with index `w`.
pub(crate) fn weekday_name_bytes(w: u8) -> (r: (u8, u8, u8))
    requires
        w <= 6,
    ensures
        seq![r.0, r.1, r.2] == weekday_name(w as int),
{
    match w {
        0 => (77u8, 111u8, 110u8),
        1 => (84u8, 117u8, 101u8),
        2 => (87u8, 101u8, 100u8),
        3 => (84u8, 104u8, 117u8),
        4 => (70u8, 114u8, 105u8),
        5 => (83u8, 97u8, 116u8),
        _ => (83u8, 117u8, 110u8),
    }
}

/// Every month has its own name, and no other.
pub proof fn lemma_month_names_distinct(m: int)
    requires
        1 <= m <= 12,
    ensures
        month_of_name(month_name(m)) == m,
{
    assert forall|a: int, c: int| 1 <= a <= 12 && 1 <= c <= 12 && month_name(a) == month_name(c) implies a == c by {
        assert(month_name(a)[0] == month_name(c)[0] && month_name(a)[1] == month_name(c)[1]
            && month_name(a)[2] == month_name(c)[2]);
    }
}

/// Every day of the week has its own name, and no other.
pub proof fn lemma_weekday_names_distinct(w: int)
    requires
        0 <= w <= 6,
    ensures
        weekday_of_name(weekday_name(w)) == w,
{
    assert forall|a: int, c: int| 0 <= a <= 6 && 0 <= c <= 6 && weekday_name(a) == weekday_name(c) implies a == c by {
        assert(weekday_name(a)[0] == weekday_name(c)[0] && weekday_name(a)[1] == weekday_name(c)[1]
            && weekday_name(a)[2] == weekday_name(c)[2]);
    }
}

/// The month named by three bytes, or 0 when none is.
pub(crate) fn month_from_name(a: u8, b: u8, c: u8) -> (r: u8)
    ensures
        r == month_of_name(seq![a, b, c]),
{
    let mut m: u8 = 1;
    while m <= 12
        invariant
            1 <= m <= 13,
            forall|k: int| 1 <= k < m ==> month_name(k) != seq![a, b, c],
        decreases 13 - m,
    {
        let (x, y, z) = month_name_bytes(m);
        if x == a && y == b && z == c {
            proof {
                assert(seq![x, y, z] =~= seq![a, b, c]);
                lemma_month_names_distinct(m as int);
            }
            return m;
        }
        proof {
            assert(seq![x, y, z][0] == x && seq![a, b, c][0] == a);
            assert(seq![x, y, z][1] == y && seq![a, b, c][1] == b);
            assert(seq![x, y, z][2] == z && seq![a, b, c][2] == c);
        }
        m = m + 1;
    }
    0
}

/// The index of the day named by three bytes, or 7 when none is.
pub(crate) fn weekday_from_name(a: u8, b: u8, c: u8) -> (r: u8)
    ensures
        r == weekday_of_name(seq![a, b, c]),
{
    let mut w: u8 = 0;
    while w <= 6
        invariant
            w <= 7,
            forall|k: int| 0 <= k < w ==> weekday_name(k) != seq![a, b, c],
        decreases 7 - w,
    {
        let (x, y, z) = weekday_name_bytes(w);
        if x == a && y == b && z == c {
            proof {
                assert(seq![x, y, z] =~= seq![a, b, c]);
                lemma_weekday_names_distinct(w as int);
            }
            return w;
        }
        proof {
            assert(seq![x, y, z][0] == x && seq![a, b, c][0] == a);
            assert(seq![x, y, z][1] == y && seq![a, b, c][1] == b);
            assert(seq![x, y, z][2] == z && seq![a, b, c][2] == c);
        }
        w = w + 1;
    }
    7
}

} // verus!
