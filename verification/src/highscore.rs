use vstd::prelude::*;

verus! {

/// Kinds of persistence failure: the backing store could not be read or
/// written for a reason other than absence, or its content was not the
/// decimal text of a non-negative integer that fits the score type.
#[derive(Clone, Copy, PartialEq, Eq, Structural, Debug)]
pub enum HighscoreError {
    IoError,
    FormatError,
}

/// What one attempt to read the backing store produced: its raw bytes, the
/// store was absent, or the read itself failed.
#[derive(Debug)]
pub enum StoreRead {
    Content(Vec<u8>),
    Missing,
    Unreadable,
}

/// Whether `b` is the code of a decimal digit.
pub open spec fn is_digit(b: u8) -> bool {
    48 <= b <= 57
}

/// The numeric value of the digit `b`.
pub open spec fn digit_val(b: u8) -> int {
    b - 48
}

/// Whether `s` is the decimal text of a non-negative integer: non-empty and
/// all digits.
pub open spec fn is_decimal(s: Seq<u8>) -> bool {
    s.len() >= 1 && forall|i: int| 0 <= i < s.len() ==> is_digit(#[trigger] s[i])
}

/// The integer a digit string denotes.
pub open spec fn decimal_value(s: Seq<u8>) -> int
    decreases s.len(),
{
    if s.len() == 0 {
        0
    } else {
        decimal_value(s.drop_last()) * 10 + digit_val(s.last())
    }
}

/// A digit string denotes a non-negative integer.
pub proof fn lemma_decimal_value_nonneg(s: Seq<u8>)
    requires
        forall|i: int| 0 <= i < s.len() ==> is_digit(#[trigger] s[i]),
    ensures
        decimal_value(s) >= 0,
    decreases s.len(),
{
    if s.len() > 0 {
        lemma_decimal_value_nonneg(s.drop_last());
    }
}

/// A prefix of a digit string never denotes more than the whole string:
/// each extension multiplies the prefix value by ten and adds a digit.
pub proof fn lemma_decimal_prefix_le(s: Seq<u8>, i: int)
    requires
        forall|k: int| 0 <= k < s.len() ==> is_digit(#[trigger] s[k]),
        0 <= i <= s.len(),
    ensures
        decimal_value(s.subrange(0, i)) <= decimal_value(s),
    decreases s.len() - i,
{
    if i < s.len() {
        let pre = s.subrange(0, i);
        let ext = s.subrange(0, i + 1);
        assert(ext.drop_last() =~= pre);
        assert(ext.last() == s[i]);
        lemma_decimal_value_nonneg(pre);
        assert(decimal_value(ext) == decimal_value(pre) * 10 + digit_val(s[i]));
        lemma_decimal_prefix_le(s, i + 1);
    } else {
        assert(s.subrange(0, i) =~= s);
    }
}

/// Parses the decimal text of a score: answers exactly the strings that are
/// non-empty, all digits, and denote a value fitting `u32`.
#[verifier::loop_isolation(false)]
pub fn parse_decimal_u32(bytes: &Vec<u8>) -> (r: Option<u32>)
    ensures
        r == (if is_decimal(bytes@) && decimal_value(bytes@) <= u32::MAX {
            Some(decimal_value(bytes@) as u32)
        } else {
            None::<u32>
        }),
{
    if bytes.len() == 0 {
        return None;
    }
    let mut acc: u32 = 0;
    let mut i: usize = 0;
    while i < bytes.len()
        invariant
            0 <= i <= bytes@.len(),
            forall|k: int| 0 <= k < i ==> is_digit(#[trigger] bytes@[k]),
            acc as int == decimal_value(bytes@.subrange(0, i as int)),
        decreases bytes@.len() - i,
    {
        let b = bytes[i];
        if b < 48 || b > 57 {
            proof {
                assert(!is_digit(bytes@[i as int]));
            }
            return None;
        }
        let d: u32 = (b - 48) as u32;
        let wide: u64 = acc as u64 * 10 + d as u64;
        proof {
            let pre1 = bytes@.subrange(0, i as int + 1);
            assert(pre1.drop_last() =~= bytes@.subrange(0, i as int));
            assert(pre1.last() == bytes@[i as int]);
            assert(decimal_value(pre1) == wide);
        }
        if wide > 0xffff_ffffu64 {
            proof {
                if is_decimal(bytes@) && decimal_value(bytes@) <= u32::MAX {
                    lemma_decimal_prefix_le(bytes@, i as int + 1);
                }
            }
            return None;
        }
        acc = wide as u32;
        i += 1;
    }
    proof {
        assert(bytes@.subrange(0, bytes@.len() as int) =~= bytes@);
    }
    Some(acc)
}

/// The decimal text of `n`: digits only, most significant first.
pub fn to_decimal(n: u32) -> (r: Vec<u8>)
    ensures
        is_decimal(r@),
        decimal_value(r@) == n,
    decreases n,
{
    if n < 10 {
        let mut digits: Vec<u8> = Vec::new();
        digits.push(48 + n as u8);
        proof {
            reveal_with_fuel(decimal_value, 2);
            assert(digits@.drop_last() =~= Seq::<u8>::empty());
            assert(digits@.last() == 48 + n as u8);
        }
        digits
    } else {
        proof {
            assert(n / 10 < n);
        }
        let mut digits = to_decimal(n / 10);
        let d: u8 = 48 + (n % 10) as u8;
        let ghost prefix = digits@;
        digits.push(d);
        proof {
            assert(digits@.drop_last() =~= prefix);
            assert(digits@.last() == d);
        }
        digits
    }
}

/// What a store read denotes: an absent store counts as highscore zero,
/// a failed read surfaces as an I/O failure, and content must be the decimal
/// text of a value fitting `u32`, anything else being a format failure.
pub open spec fn read_result(store: StoreRead) -> Result<u32, HighscoreError> {
    match store {
        StoreRead::Missing => Ok(0u32),
        StoreRead::Unreadable => Err(HighscoreError::IoError),
        StoreRead::Content(bytes) => if is_decimal(bytes@) && decimal_value(bytes@) <= u32::MAX {
            Ok(decimal_value(bytes@) as u32)
        } else {
            Err(HighscoreError::FormatError)
        },
    }
}

/// The current highscore: a cached value wins, otherwise the store read
/// decides.
pub open spec fn current_high(cache: Option<u32>, store: StoreRead) -> Result<
    u32,
    HighscoreError,
> {
    match cache {
        Some(v) => Ok(v),
        None => read_result(store),
    }
}

/// What registering `score` answers: the value to persist when it strictly
/// beats the current highscore, nothing otherwise, or the failure the read
/// surfaced.
pub open spec fn register_result(cache: Option<u32>, store: StoreRead, score: u32) -> Result<
    Option<u32>,
    HighscoreError,
> {
    match current_high(cache, store) {
        Ok(h) => Ok(
            if score > h {
                Some(score)
            } else {
                None::<u32>
            },
        ),
        Err(e) => Err(e),
    }
}

/// The cache left behind by registering `score`.
pub open spec fn register_cache(cache: Option<u32>, store: StoreRead, score: u32) -> Option<
    u32,
> {
    match current_high(cache, store) {
        Ok(h) => Some(
            if score > h {
                score
            } else {
                h
            },
        ),
        Err(_) => cache,
    }
}

/// The persisted highscore, cached in memory after the first successful read.
/// The backing store itself lives with the caller, which passes in what its
/// latest read produced and performs any write this service asks for.
pub struct HighscoreService {
    cached_highscore: Option<u32>,
}

impl HighscoreService {
    /// The in-memory copy of the highscore, if one was established.
    pub closed spec fn cache(&self) -> Option<u32> {
        self.cached_highscore
    }

    pub fn start() -> (service: HighscoreService)
        ensures
            service.cache() is None,
    {
        HighscoreService { cached_highscore: None }
    }

    /// The current highscore: the cached value if present, otherwise what the
    /// store read denotes. A successful answer is cached.
    pub fn get_highscore(&mut self, store: &StoreRead) -> (r: Result<u32, HighscoreError>)
        ensures
            r == current_high(old(self).cache(), *store),
            final(self).cache() == (match r {
                Ok(v) => Some(v),
                Err(_) => old(self).cache(),
            }),
    {
        match self.cached_highscore {
            Some(v) => Ok(v),
            None => match store {
                StoreRead::Missing => {
                    self.cached_highscore = Some(0);
                    Ok(0)
                },
                StoreRead::Unreadable => Err(HighscoreError::IoError),
                StoreRead::Content(bytes) => match parse_decimal_u32(bytes) {
                    Some(n) => {
                        self.cached_highscore = Some(n);
                        Ok(n)
                    },
                    None => Err(HighscoreError::FormatError),
                },
            },
        }
    }

    /// Whether `score` strictly exceeds the current highscore.
    pub fn is_new_highscore(&mut self, score: u32, store: &StoreRead) -> (r: Result<
        bool,
        HighscoreError,
    >)
        ensures
            r == (match current_high(old(self).cache(), *store) {
                Ok(h) => Ok::<bool, HighscoreError>(score > h),
                Err(e) => Err::<bool, HighscoreError>(e),
            }),
            final(self).cache() == (match current_high(old(self).cache(), *store) {
                Ok(h) => Some(h),
                Err(_) => old(self).cache(),
            }),
    {
        match self.get_highscore(store) {
            Ok(h) => Ok(score > h),
            Err(e) => Err(e),
        }
    }

    /// Registers a finished session's score: answers the value to persist when
    /// it strictly beats the current highscore (and caches it), nothing when
    /// it does not, or the failure the read surfaced.
    pub fn register_score(&mut self, score: u32, store: &StoreRead) -> (r: Result<
        Option<u32>,
        HighscoreError,
    >)
        ensures
            r == register_result(old(self).cache(), *store, score),
            final(self).cache() == register_cache(old(self).cache(), *store, score),
    {
        match self.get_highscore(store) {
            Ok(h) => {
                if score > h {
                    self.cached_highscore = Some(score);
                    Ok(Some(score))
                } else {
                    Ok(None)
                }
            },
            Err(e) => Err(e),
        }
    }
}

/// Registering then reading: once `register_score(x)` has resolved a current
/// highscore `h`, a following `get_highscore` answers `x` when `x` exceeded
/// `h` and `h` unchanged when it did not, whatever a later store read says.
pub proof fn lemma_register_then_get(
    cache: Option<u32>,
    store: StoreRead,
    later: StoreRead,
    x: u32,
    h: u32,
)
    requires
        current_high(cache, store) == Ok::<u32, HighscoreError>(h),
    ensures
        x > h ==> current_high(register_cache(cache, store, x), later) == Ok::<
            u32,
            HighscoreError,
        >(x),
        x <= h ==> current_high(register_cache(cache, store, x), later) == Ok::<
            u32,
            HighscoreError,
        >(h),
{
}

/// A persisted score reads back as itself: bytes denoting `x` resolve to
/// highscore `x` for a fresh service, so a value written by one session is
/// the value the next session starts from.
pub proof fn lemma_persisted_score_reads_back(bytes: Vec<u8>, x: u32)
    requires
        is_decimal(bytes@),
        decimal_value(bytes@) == x,
    ensures
        read_result(StoreRead::Content(bytes)) == Ok::<u32, HighscoreError>(x),
        current_high(None, StoreRead::Content(bytes)) == Ok::<u32, HighscoreError>(x),
{
}

} // verus!
