//! The state store and the fetch endpoint's request handling.
//!
//! The store owns an immutable token sequence, a message, a shared read
//! cursor, and a default page size.  Its one mutating operation takes the
//! next page of tokens and advances the cursor; an exhausted store answers
//! with a fixed sentinel and never changes again.

use crate::parse::{accepts_usize, digits_val, num_part, parse_usize};
use crate::text::{join_csv, join_with_commas, views_of};
use vstd::prelude::*;

verus! {

/// Startup configuration: the server port, the default page size, and the
/// fixed test token prepended to every non-exhausted page.
pub struct Config {
    pub port: u16,
    pub default_fetch_count: usize,
    pub test_number: String,
}

impl Config {
    /// A usable configuration has a positive default page size.
    pub open spec fn wf(self) -> bool {
        self.default_fetch_count >= 1
    }
}

/// One response of the fetch endpoint.
pub struct ResponseData {
    pub numbers: String,
    pub message: String,
    pub count: usize,
}

/// The state store.
pub struct AppState {
    pub numbers: Vec<String>,
    pub message: String,
    pub start_index: usize,
    pub default_fetch_count: usize,
    pub test_number: String,
}

impl AppState {
    /// Store invariant: the cursor never leaves the token sequence and the
    /// default page size is positive.  The strict length bound is a machine
    /// limit: a vector of strings can never actually hold `usize::MAX`
    /// elements, and it keeps a page's token count within `usize`.
    pub open spec fn wf(self) -> bool {
        &&& self.start_index <= self.numbers@.len()
        &&& self.numbers@.len() < usize::MAX
        &&& self.default_fetch_count >= 1
    }

    /// The cursor has reached the end of the token sequence; terminal.
    pub open spec fn exhausted(self) -> bool {
        self.start_index >= self.numbers@.len()
    }

    /// The page size a request resolves to: the requested value when it is
    /// present and positive, else the configured default.  A requested zero
    /// is rejected by falling back to the default.
    pub open spec fn effective_n(self, requested: Option<usize>) -> usize {
        match requested {
            Some(v) => if v >= 1 {
                v
            } else {
                self.default_fetch_count
            },
            None => self.default_fetch_count,
        }
    }

    /// Where a page of size `n` ends: `n` tokens past the cursor, clamped to
    /// the end of the sequence.
    pub open spec fn end_index(self, n: usize) -> int {
        vstd::math::min(self.start_index + n, self.numbers@.len() as int)
    }

    /// The tokens of a non-exhausted page of size `n`: the test token first,
    /// then the next `min(n, remaining)` tokens, in sequence order.
    pub open spec fn page_tokens(self, n: usize) -> Seq<Seq<char>> {
        seq![self.test_number@] + views_of(
            self.numbers@.subrange(self.start_index as int, self.end_index(n)),
        )
    }
}

/// The whole effect of one fetch on the store, for resolved page size `n`:
/// what the store becomes and what the caller is told.  On an exhausted
/// store nothing changes and the response is the fixed sentinel; otherwise
/// the response carries the comma-joined page, prefixed with the test token,
/// and the cursor advances to the end of the page.
pub open spec fn page_transition(
    pre: AppState,
    post: AppState,
    n: usize,
    r: ResponseData,
) -> bool {
    &&& post.numbers == pre.numbers
    &&& post.message == pre.message
    &&& post.default_fetch_count == pre.default_fetch_count
    &&& post.test_number == pre.test_number
    &&& if pre.exhausted() {
        &&& post.start_index == pre.start_index
        &&& r.numbers@ == Seq::<char>::empty()
        &&& r.message@ == "No more numbers"@
        &&& r.count == 0
    } else {
        &&& post.start_index == pre.end_index(n)
        &&& r.numbers@ == join_csv(pre.page_tokens(n))
        &&& r.message@ == pre.message@
        &&& r.count == pre.end_index(n) - pre.start_index + 1
    }
}

impl AppState {
    /// `TakeNextPage`: resolve the page size, read the next page, advance
    /// the cursor.  On an exhausted store, return the sentinel and change
    /// nothing; the cursor never moves backwards and never leaves the
    /// sequence, and a non-exhausted call returns `min(n, remaining) + 1`
    /// tokens, counting the prepended test token.
    pub fn take_next_page(&mut self, requested_n: Option<usize>) -> (r: ResponseData)
        requires
            old(self).wf(),
        ensures
            final(self).wf(),
            final(self).start_index >= old(self).start_index,
            final(self).start_index <= final(self).numbers@.len(),
            page_transition(
                *old(self),
                *final(self),
                old(self).effective_n(requested_n),
                r,
            ),
            !old(self).exhausted() ==> r.count == vstd::math::min(
                old(self).effective_n(requested_n) as int,
                old(self).numbers@.len() - old(self).start_index,
            ) + 1,
    {
        let n: usize = match requested_n {
            Some(v) => if v >= 1 {
                v
            } else {
                self.default_fetch_count
            },
            None => self.default_fetch_count,
        };
        let total = self.numbers.len();
        if self.start_index >= total {
            return ResponseData {
                numbers: String::new(),
                message: String::from_str("No more numbers"),
                count: 0,
            };
        }
        let remaining = total - self.start_index;
        let page_len = if n < remaining {
            n
        } else {
            remaining
        };
        let end_index = self.start_index + page_len;
        let mut tokens: Vec<String> = Vec::new();
        tokens.push(self.test_number.clone());
        proof {
            assert(views_of(tokens@) =~~= seq![self.test_number@] + views_of(
                self.numbers@.subrange(self.start_index as int, self.start_index as int),
            ));
        }
        let mut i = self.start_index;
        while i < end_index
            invariant
                self.start_index <= i <= end_index,
                end_index <= self.numbers@.len(),
                views_of(tokens@) == seq![self.test_number@] + views_of(
                    self.numbers@.subrange(self.start_index as int, i as int),
                ),
                tokens@.len() == 1 + i - self.start_index,
            decreases end_index - i,
        {
            let ghost t0 = tokens@;
            let ghost sub_i = self.numbers@.subrange(self.start_index as int, i as int);
            let tok: &String = &self.numbers[i];
            tokens.push(tok.clone());
            proof {
                assert(views_of(tokens@) =~~= views_of(t0).push(self.numbers@[i as int]@));
                assert(self.numbers@.subrange(self.start_index as int, i + 1) =~= sub_i.push(
                    self.numbers@[i as int],
                ));
                assert(views_of(sub_i.push(self.numbers@[i as int])) =~~= views_of(sub_i).push(
                    self.numbers@[i as int]@,
                ));
                assert((seq![self.test_number@] + views_of(sub_i)).push(self.numbers@[i as int]@)
                    =~~= seq![self.test_number@] + views_of(sub_i).push(self.numbers@[i as int]@));
            }
            i += 1;
        }
        let joined = join_with_commas(&tokens);
        let count = tokens.len();
        let message = self.message.clone();
        self.start_index = end_index;
        ResponseData { numbers: joined, message, count }
    }

    /// The page size one request with this raw `n` parameter resolves to:
    /// parse, keep a positive value, otherwise fall back to the default.
    pub fn resolve_count(&self, n_param: Option<&String>) -> (n: usize)
        ensures
            n == self.effective_n(requested_count(n_param)),
    {
        let requested: Option<usize> = match n_param {
            Some(s) => parse_usize(s.as_str()),
            None => None,
        };
        match requested {
            Some(v) => if v >= 1 {
                v
            } else {
                self.default_fetch_count
            },
            None => self.default_fetch_count,
        }
    }

    /// Diagnostic projection: the 1-based index of the page the next fetch
    /// of size `n` falls in, derived from the cursor; saturates at the top
    /// of `usize`.
    pub fn current_page(&self, n: usize) -> (p: usize)
        requires
            n >= 1,
        ensures
            p == vstd::math::min(self.start_index as int / n as int + 1, usize::MAX as int),
    {
        let q = self.start_index / n;
        if q == usize::MAX {
            q
        } else {
            q + 1
        }
    }

    /// Diagnostic projection: how many pages of size `n` remain before the
    /// store is exhausted — the ceiling of `remaining / n`.
    pub fn pages_remaining(&self, n: usize) -> (p: usize)
        requires
            n >= 1,
            self.wf(),
        ensures
            p == (self.numbers@.len() - self.start_index + n - 1) / (n as int),
    {
        let remaining = self.numbers.len() - self.start_index;
        let q = remaining / n;
        proof {
            lemma_ceil_div(remaining as int, n as int);
        }
        if remaining % n != 0 {
            q + 1
        } else {
            q
        }
    }
}

/// Ceiling division, written without risking overflow: rounding up equals
/// adding one exactly when the division leaves a remainder.
proof fn lemma_ceil_div(a: int, n: int)
    requires
        0 <= a,
        1 <= n,
    ensures
        (a + n - 1) / n == a / n + if a % n != 0 {
            1int
        } else {
            0int
        },
{
    vstd::arithmetic::div_mod::lemma_fundamental_div_mod(a, n);
    let q = a / n;
    let r = a % n;
    if r == 0 {
        assert(a + n - 1 == q * n + (n - 1)) by (nonlinear_arith)
            requires
                a == n * q + r,
                r == 0,
        ;
        vstd::arithmetic::div_mod::lemma_fundamental_div_mod_converse(a + n - 1, n, q, n - 1);
    } else {
        assert(a + n - 1 == (q + 1) * n + (r - 1)) by (nonlinear_arith)
            requires
                a == n * q + r,
        ;
        vstd::arithmetic::div_mod::lemma_fundamental_div_mod_converse(a + n - 1, n, q + 1, r - 1);
    }
}

/// The page size the raw query parameter asks for: the parsed value when it
/// parses as a `usize`, else nothing.
pub open spec fn requested_count(param: Option<&String>) -> Option<usize> {
    match param {
        Some(s) => if accepts_usize(s@) {
            Some(digits_val(num_part(s@)) as usize)
        } else {
            None
        },
        None => None,
    }
}

/// The fetch endpoint's computation: resolve the optional `n` query
/// parameter — a malformed or absent value silently falls back to the
/// configured default — and take the next page from the store.
pub fn fetch_handler(state: &mut AppState, n_param: Option<&String>) -> (r: ResponseData)
    requires
        old(state).wf(),
    ensures
        final(state).wf(),
        final(state).start_index >= old(state).start_index,
        page_transition(
            *old(state),
            *final(state),
            old(state).effective_n(requested_count(n_param)),
            r,
        ),
{
    let requested: Option<usize> = match n_param {
        Some(s) => parse_usize(s.as_str()),
        None => None,
    };
    state.take_next_page(requested)
}

/// Build the store from the configuration and the loaded token and message
/// texts: the cursor at the start, everything else as supplied.
pub fn load_state(config: &Config, numbers: Vec<String>, message: String) -> (s: AppState)
    requires
        config.wf(),
        numbers@.len() < usize::MAX,
    ensures
        s.wf(),
        s.numbers == numbers,
        s.message == message,
        s.start_index == 0,
        s.default_fetch_count == config.default_fetch_count,
        s.test_number == config.test_number,
{
    AppState {
        numbers,
        message,
        start_index: 0,
        default_fetch_count: config.default_fetch_count,
        test_number: config.test_number.clone(),
    }
}

/// Law of the cursor ratchet: a fetch on a non-exhausted store strictly
/// advances the cursor, so repeating the identical request never returns the
/// same page twice — the next page is drawn from tokens strictly after those
/// just returned, and if the first fetch exhausted the store the second
/// returns the sentinel, which differs from every non-exhausted response.
pub proof fn lemma_no_page_repeats(
    pre: AppState,
    mid: AppState,
    post: AppState,
    n1: usize,
    n2: usize,
    r1: ResponseData,
    r2: ResponseData,
)
    requires
        pre.wf(),
        !pre.exhausted(),
        n1 >= 1,
        n2 >= 1,
        page_transition(pre, mid, n1, r1),
        page_transition(mid, post, n2, r2),
    ensures
        pre.start_index < mid.start_index <= post.start_index,
        r1.count >= 2,
        r1.numbers@.len() > 0,
        mid.exhausted() ==> r2.count == 0 && r2.numbers@.len() == 0 && r1 != r2,
        !mid.exhausted() ==> mid.start_index < post.start_index,
{
    let pt = pre.page_tokens(n1);
    assert(pt.len() >= 2);
    assert(join_csv(pt) == pt[0] + seq![','] + join_csv(pt.drop_first()));
    assert(join_csv(pt).len() >= 1);
}

/// Exhaustion is terminal: once the cursor has reached the end, every later
/// fetch leaves the store unchanged and returns the fixed sentinel.
pub proof fn lemma_exhausted_terminal(pre: AppState, post: AppState, n: usize, r: ResponseData)
    requires
        pre.exhausted(),
        page_transition(pre, post, n, r),
    ensures
        post.exhausted(),
        post.start_index == pre.start_index,
        r.count == 0,
        r.numbers@ == Seq::<char>::empty(),
        r.message@ == "No more numbers"@,
{
}

} // verus!
