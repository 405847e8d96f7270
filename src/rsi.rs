use vstd::prelude::*;

verus! {

/// Number of prices the indicator reads: fourteen successive differences
/// need fifteen points.
pub const RSI_WINDOW: usize = 15;

/// Largest magnitude of a difference of two `i64` prices, plus one.
spec fn diff_bound() -> int {
    0x1_0000_0000_0000_0000
}

/// The rise from `s[i - 1]` to `s[i]`, or zero when the price did not rise.
pub open spec fn gain_at(s: Seq<i64>, i: int) -> int {
    if s[i] - s[i - 1] > 0 {
        s[i] - s[i - 1]
    } else {
        0
    }
}

/// The fall from `s[i - 1]` to `s[i]`, or zero when the price rose.
pub open spec fn loss_at(s: Seq<i64>, i: int) -> int {
    if s[i] - s[i - 1] > 0 {
        0
    } else {
        s[i - 1] - s[i]
    }
}

/// Sum of `gain_at(s, i)` for `1 <= i < n`.
pub open spec fn gain_sum(s: Seq<i64>, n: int) -> int
    decreases n,
{
    if n <= 1 {
        0
    } else {
        gain_sum(s, n - 1) + gain_at(s, n - 1)
    }
}

/// Sum of `loss_at(s, i)` for `1 <= i < n`.
pub open spec fn loss_sum(s: Seq<i64>, n: int) -> int
    decreases n,
{
    if n <= 1 {
        0
    } else {
        loss_sum(s, n - 1) + loss_at(s, n - 1)
    }
}

/// The most recent `RSI_WINDOW` prices of `s` (oldest first).
pub open spec fn recent(s: Seq<i64>) -> Seq<i64> {
    s.subrange(s.len() - RSI_WINDOW, s.len() as int)
}

/// The indicator of `s` as a fraction `(num, den)`: its value is `100 * num / den`.
///
/// With `g` and `l` the sums of gains and losses over the recent window, the
/// textbook form `100 - 100 / (1 + (g / 14) / (l / 14))` equals `100 * g / (g + l)`.
/// Fewer than `RSI_WINDOW` prices give the sentinel 0; no losses give 100.
pub open spec fn rsi_fraction(s: Seq<i64>) -> (int, int) {
    if s.len() < RSI_WINDOW {
        (0, 1)
    } else {
        let w = recent(s);
        let g = gain_sum(w, RSI_WINDOW as int);
        let l = loss_sum(w, RSI_WINDOW as int);
        if l == 0 {
            (1, 1)
        } else {
            (g, g + l)
        }
    }
}

/// A relative strength reading held exactly: its value is `100 * num / den`.
#[derive(Clone, Copy, Debug, PartialEq, Eq, Structural)]
pub struct Rsi {
    pub num: u128,
    pub den: u128,
}

impl Rsi {
    /// The reading as a pair of integers.
    pub open spec fn fraction(self) -> (int, int) {
        (self.num as int, self.den as int)
    }
}

proof fn lemma_sums_bounded(s: Seq<i64>, n: int)
    requires
        1 <= n <= s.len(),
    ensures
        0 <= gain_sum(s, n) <= (n - 1) * diff_bound(),
        0 <= loss_sum(s, n) <= (n - 1) * diff_bound(),
    decreases n,
{
    if n > 1 {
        lemma_sums_bounded(s, n - 1);
    }
}

proof fn lemma_no_losses(s: Seq<i64>, n: int)
    requires
        1 <= n <= s.len(),
        forall|i: int| 1 <= i < n ==> s[i - 1] <= #[trigger] s[i],
    ensures
        loss_sum(s, n) == 0,
    decreases n,
{
    if n > 1 {
        lemma_no_losses(s, n - 1);
    }
}

proof fn lemma_no_gains(s: Seq<i64>, n: int)
    requires
        1 <= n <= s.len(),
        forall|i: int| 1 <= i < n ==> s[i - 1] >= #[trigger] s[i],
    ensures
        gain_sum(s, n) == 0,
    decreases n,
{
    if n > 1 {
        lemma_no_gains(s, n - 1);
    }
}

proof fn lemma_some_loss(s: Seq<i64>, n: int, k: int)
    requires
        1 <= k < n <= s.len(),
        s[k - 1] > s[k],
    ensures
        loss_sum(s, n) > 0,
    decreases n,
{
    lemma_sums_bounded(s, n - 1);
    if k < n - 1 {
        lemma_some_loss(s, n - 1, k);
    }
}

/// A window whose recent prices never fall reads 100: there are no losses.
pub proof fn lemma_rising_reads_full(s: Seq<i64>)
    requires
        s.len() >= RSI_WINDOW,
        forall|i: int| s.len() - RSI_WINDOW < i < s.len() ==> s[i - 1] <= #[trigger] s[i],
    ensures
        rsi_fraction(s) == (1int, 1int),
{
    let w = recent(s);
    assert forall|i: int| 1 <= i < RSI_WINDOW implies w[i - 1] <= #[trigger] w[i] by {
        assert(w[i] == s[s.len() - RSI_WINDOW + i]);
        assert(w[i - 1] == s[s.len() - RSI_WINDOW + i - 1]);
    }
    lemma_no_losses(w, RSI_WINDOW as int);
}

/// A window whose recent prices never rise, and fall at least once, reads 0:
/// there are no gains and the losses are positive.
pub proof fn lemma_falling_reads_zero(s: Seq<i64>, k: int)
    requires
        s.len() >= RSI_WINDOW,
        forall|i: int| s.len() - RSI_WINDOW < i < s.len() ==> s[i - 1] >= #[trigger] s[i],
        s.len() - RSI_WINDOW < k < s.len(),
        s[k - 1] > s[k],
    ensures
        rsi_fraction(s).0 == 0,
        rsi_fraction(s).1 > 0,
{
    let w = recent(s);
    let off = s.len() - RSI_WINDOW;
    assert forall|i: int| 1 <= i < RSI_WINDOW implies w[i - 1] >= #[trigger] w[i] by {
        assert(w[i] == s[off + i]);
        assert(w[i - 1] == s[off + i - 1]);
    }
    assert(w[k - off] == s[k] && w[k - off - 1] == s[k - 1]);
    lemma_no_gains(w, RSI_WINDOW as int);
    lemma_some_loss(w, RSI_WINDOW as int, k - off);
}

/// The indicator reads only the most recent `RSI_WINDOW` prices: prices
/// older than those, prepended to a full window, do not change it.
pub proof fn lemma_older_prices_ignored(older: Seq<i64>, s: Seq<i64>)
    requires
        s.len() >= RSI_WINDOW,
    ensures
        rsi_fraction(older + s) == rsi_fraction(s),
{
    assert(recent(older + s) =~= recent(s));
}

/// Computes the indicator over the most recent `RSI_WINDOW` prices of `prices`.
pub fn rsi(prices: &Vec<i64>) -> (r: Rsi)
    ensures
        r.fraction() == rsi_fraction(prices@),
        0 <= r.num <= r.den,
        0 < r.den,
        prices@.len() < RSI_WINDOW ==> r.num == 0 && r.den == 1,
{
    let len = prices.len();
    if len < RSI_WINDOW {
        return Rsi { num: 0, den: 1 };
    }
    let start = len - RSI_WINDOW;
    let ghost w = recent(prices@);
    let mut gains: u128 = 0;
    let mut losses: u128 = 0;
    let mut i: usize = 1;
    while i < RSI_WINDOW
        invariant
            start + RSI_WINDOW == len,
            len == prices@.len(),
            w == recent(prices@),
            1 <= i <= RSI_WINDOW,
            gains == gain_sum(w, i as int),
            losses == loss_sum(w, i as int),
        decreases RSI_WINDOW - i,
    {
        proof {
            lemma_sums_bounded(w, i as int);
        }
        let prev = prices[start + i - 1];
        let cur = prices[start + i];
        assert(w[i as int] == cur && w[i - 1] == prev);
        if cur > prev {
            gains = gains + (cur as i128 - prev as i128) as u128;
        } else {
            losses = losses + (prev as i128 - cur as i128) as u128;
        }
        i = i + 1;
    }
    proof {
        lemma_sums_bounded(w, RSI_WINDOW as int);
    }
    if losses == 0 {
        Rsi { num: 1, den: 1 }
    } else {
        Rsi { num: gains, den: gains + losses }
    }
}

} // verus!
