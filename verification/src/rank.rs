use vstd::prelude::*;

verus! {

/// A level's computed bucket key had no entry in the rank table. Carries the
/// bucket that missed, so the caller can report or fall back.
#[derive(Clone, Copy, Debug, PartialEq, Eq, Structural)]
pub struct RankLookupError {
    pub bucket: i32,
}

/// Leading decimal digit of `n`, that is `n / 10^floor(log10(n))`.
pub open spec fn first_digit(n: int) -> int
    recommends
        n >= 1,
    decreases n,
{
    if n < 10 {
        n
    } else {
        first_digit(n / 10)
    }
}

/// The power of ten of `n`'s leading digit: `10^floor(log10(n))`.
pub open spec fn digit_power(n: int) -> int
    recommends
        n >= 1,
    decreases n,
{
    if n < 10 {
        1
    } else {
        10 * digit_power(n / 10)
    }
}

/// The bucket key a level is ranked under: 0 below 10; the leading digit
/// scaled back to its power of ten between 10 and 50; then 50 up to 100;
/// and 100 beyond.
pub open spec fn bucket_of(l: int) -> int {
    if l < 10 {
        0
    } else if l < 50 {
        first_digit(l) * digit_power(l)
    } else if l < 100 {
        50
    } else {
        100
    }
}

/// The magnitude never exceeds the number itself.
pub proof fn lemma_digit_power_le(n: int)
    requires
        n >= 1,
    ensures
        1 <= digit_power(n) <= n,
    decreases n,
{
    if n >= 10 {
        lemma_digit_power_le(n / 10);
        assert(10 * digit_power(n / 10) <= 10 * (n / 10)) by (nonlinear_arith)
            requires
                digit_power(n / 10) <= n / 10,
        ;
        assert(10 * (n / 10) <= n) by (nonlinear_arith)
            requires
                n >= 10,
        ;
    }
}

/// Between 10 and 99 the leading digit is the tens digit and its power of
/// ten is 10, so the bucket is the level rounded down to a multiple of ten.
pub proof fn lemma_two_digit_bucket(l: int)
    requires
        10 <= l < 100,
    ensures
        first_digit(l) == l / 10,
        digit_power(l) == 10,
{
    assert(1 <= l / 10 < 10);
    assert(first_digit(l) == first_digit(l / 10));
    assert(digit_power(l) == 10 * digit_power(l / 10));
}

/// Leading decimal digit of a positive number.
pub fn get_first_significant_figure(n: i32) -> (d: i32)
    requires
        n >= 1,
    ensures
        d == first_digit(n as int),
        1 <= d <= 9,
{
    let mut m: u32 = n as u32;
    while m >= 10
        invariant
            1 <= m,
            first_digit(m as int) == first_digit(n as int),
        decreases m,
    {
        m = m / 10;
    }
    m as i32
}

/// The power of ten of a positive number's leading digit.
pub fn decimal_magnitude(n: i32) -> (p: i32)
    requires
        n >= 1,
    ensures
        p == digit_power(n as int),
{
    proof {
        lemma_digit_power_le(n as int);
    }
    let mut m: u32 = n as u32;
    let mut p: u32 = 1;
    while m >= 10
        invariant
            1 <= m,
            1 <= p,
            p * digit_power(m as int) == digit_power(n as int),
            digit_power(n as int) <= n,
            n >= 1,
        decreases m,
    {
        proof {
            lemma_digit_power_le(m as int / 10);
            assert(digit_power(m as int) == 10 * digit_power(m as int / 10));
            assert((10 * p) * digit_power(m as int / 10) == p * digit_power(m as int))
                by (nonlinear_arith)
                requires
                    digit_power(m as int) == 10 * digit_power(m as int / 10),
            ;
            assert(p * 1 <= p * digit_power(m as int / 10)) by (nonlinear_arith)
                requires
                    p >= 0,
                    1 <= digit_power(m as int / 10),
            ;
            assert(10 * p <= (10 * p) * digit_power(m as int / 10)) by (nonlinear_arith)
                requires
                    p >= 1,
                    1 <= digit_power(m as int / 10),
            ;
        }
        m = m / 10;
        p = 10 * p;
    }
    proof {
        assert(digit_power(m as int) == 1);
        assert(p * 1 == p);
    }
    p as i32
}

/// Buckets stay between 0 and 100, whatever the level.
pub proof fn lemma_bucket_bounds(l: int)
    ensures
        0 <= bucket_of(l) <= 100,
{
    if 10 <= l < 50 {
        lemma_two_digit_bucket(l);
        assert(bucket_of(l) == 10 * (l / 10));
    }
}

/// The fixed table from bucket keys to single-letter rank labels.
pub struct RankTable {
    pub entries: Vec<(i32, char)>,
}

/// First-match lookup in the entries from position `i` on.
pub open spec fn lookup_from(s: Seq<(i32, char)>, i: int, key: int) -> Option<char>
    decreases s.len() - i,
{
    if i < 0 || i >= s.len() {
        None
    } else if s[i].0 == key {
        Some(s[i].1)
    } else {
        lookup_from(s, i + 1, key)
    }
}

/// First-match lookup over the whole table.
pub open spec fn spec_lookup(s: Seq<(i32, char)>, key: int) -> Option<char> {
    lookup_from(s, 0, key)
}

/// The entries of the standard rank table: tiers E, D, C, B, A, S, N.
pub open spec fn standard_entries() -> Seq<(i32, char)> {
    seq![
        (0i32, 'E'),
        (10i32, 'D'),
        (20i32, 'C'),
        (30i32, 'B'),
        (40i32, 'A'),
        (50i32, 'S'),
        (100i32, 'N'),
    ]
}

/// What ranking a level yields against a table: the label filed under the
/// level's bucket, or the missing bucket as an error.
pub open spec fn classify_spec(l: int, s: Seq<(i32, char)>) -> Result<char, RankLookupError> {
    match spec_lookup(s, bucket_of(l)) {
        Some(c) => Ok(c),
        None => Err(RankLookupError { bucket: bucket_of(l) as i32 }),
    }
}

impl RankTable {
    /// Builds the standard seven-tier table.
    pub fn standard() -> (t: RankTable)
        ensures
            t.entries@ == standard_entries(),
    {
        let mut entries: Vec<(i32, char)> = Vec::new();
        entries.push((0, 'E'));
        entries.push((10, 'D'));
        entries.push((20, 'C'));
        entries.push((30, 'B'));
        entries.push((40, 'A'));
        entries.push((50, 'S'));
        entries.push((100, 'N'));
        proof {
            assert(entries@ =~= standard_entries());
        }
        RankTable { entries }
    }

    /// First-match lookup of a bucket key.
    pub fn lookup(&self, key: i32) -> (r: Option<char>)
        ensures
            r == spec_lookup(self.entries@, key as int),
    {
        let mut i: usize = 0;
        while i < self.entries.len()
            invariant
                0 <= i <= self.entries.len(),
                lookup_from(self.entries@, 0, key as int) == lookup_from(
                    self.entries@,
                    i as int,
                    key as int,
                ),
            decreases self.entries.len() - i,
        {
            let (k, c) = self.entries[i];
            if k == key {
                return Some(c);
            }
            i = i + 1;
        }
        None
    }
}

/// Maps a level to its rank label through the table: first matching tier in
/// the order below 10, below 50 (by leading digit), below 100, and at or
/// above 100. A missing bucket is reported, never unwrapped.
pub fn classify_rank(level: i32, table: &RankTable) -> (res: Result<char, RankLookupError>)
    ensures
        res == classify_spec(level as int, table.entries@),
{
    let bucket: i32 = if level < 10 {
        0
    } else if level < 50 {
        let fsf: i32 = get_first_significant_figure(level);
        let mag: i32 = decimal_magnitude(level);
        proof {
            lemma_digit_power_le(level as int);
            assert(0 <= fsf * mag <= 9 * 49) by (nonlinear_arith)
                requires
                    1 <= fsf <= 9,
                    1 <= mag <= 49,
            ;
        }
        fsf * mag
    } else if level < 100 {
        50
    } else {
        100
    };
    match table.lookup(bucket) {
        Some(c) => Ok(c),
        None => Err(RankLookupError { bucket }),
    }
}

/// The outer tiers partition the levels: everything below level 10 ranks E,
/// levels 50 to 99 rank S, and level 100 and beyond ranks N, in the
/// standard table.
pub proof fn lemma_rank_partition(l: int)
    ensures
        l < 10 ==> classify_spec(l, standard_entries()) == Ok::<char, RankLookupError>('E'),
        50 <= l < 100 ==> classify_spec(l, standard_entries()) == Ok::<char, RankLookupError>('S'),
        l >= 100 ==> classify_spec(l, standard_entries()) == Ok::<char, RankLookupError>('N'),
{
    reveal_with_fuel(lookup_from, 9);
}

/// Between levels 10 and 49 the rank depends only on the tens digit: D for
/// the teens, then C, B, and A for the forties, in the standard table.
pub proof fn lemma_rank_tens(l: int)
    requires
        10 <= l < 50,
    ensures
        classify_spec(l, standard_entries()) == Ok::<char, RankLookupError>(
            if l < 20 {
                'D'
            } else if l < 30 {
                'C'
            } else if l < 40 {
                'B'
            } else {
                'A'
            },
        ),
{
    reveal_with_fuel(lookup_from, 9);
    lemma_two_digit_bucket(l);
    assert(bucket_of(l) == 10 * (l / 10));
}

/// Against the standard table every level ranks: the lookup cannot miss.
pub proof fn lemma_standard_table_total(l: int)
    ensures
        classify_spec(l, standard_entries()) is Ok,
{
    if 10 <= l < 50 {
        lemma_rank_tens(l);
    } else {
        lemma_rank_partition(l);
    }
}

} // verus!
