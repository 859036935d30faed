use vstd::prelude::*;
use crate::error::ClientError;
use crate::urls::{decimal, digit_char, page_url_of, search_url};

verus! {

pub open spec fn is_digit(c: char) -> bool {
    '0' <= c && c <= '9'
}

/// The number that a run of decimal digits spells.
pub open spec fn digits_value(s: Seq<char>) -> nat
    decreases s.len(),
{
    if s.len() == 0 {
        0
    } else {
        (digits_value(s.drop_last()) * 10 + (s.last() as int - '0' as int)) as nat
    }
}

/// Where the run of decimal digits that ends `t` begins.
pub open spec fn digit_run_start(t: Seq<char>) -> nat
    decreases t.len(),
{
    if t.len() > 0 && is_digit(t.last()) {
        digit_run_start(t.drop_last())
    } else {
        t.len()
    }
}

pub open spec fn page_param_query() -> Seq<char> {
    seq!['?', 'p', 'a', 'g', 'e', '=']
}

pub open spec fn page_param_next() -> Seq<char> {
    seq!['&', 'p', 'a', 'g', 'e', '=']
}

/// The page index that a cursor designates, if it has a recognised form:
/// either a bare decimal index, or an address whose trailing `page`
/// parameter carries the index.
pub open spec fn page_index_of(t: Seq<char>) -> Option<nat> {
    let k = digit_run_start(t);
    if k < t.len() && (k == 0 || (k >= 6 && (t.subrange(k - 6, k as int) == page_param_query()
        || t.subrange(k - 6, k as int) == page_param_next()))) {
        Some(digits_value(t.skip(k as int)))
    } else {
        None
    }
}

proof fn lemma_run_start(t: Seq<char>)
    ensures
        digit_run_start(t) <= t.len(),
        forall|i: int| digit_run_start(t) <= i < t.len() ==> is_digit(#[trigger] t[i]),
        digit_run_start(t) > 0 ==> !is_digit(t[digit_run_start(t) - 1]),
    decreases t.len(),
{
    if t.len() > 0 && is_digit(t.last()) {
        lemma_run_start(t.drop_last());
        assert forall|i: int| digit_run_start(t) <= i < t.len() implies is_digit(#[trigger] t[i]) by {
            if i < t.len() - 1 {
                assert(t.drop_last()[i] == t[i]);
            }
        }
        if digit_run_start(t) > 0 {
            assert(t.drop_last()[digit_run_start(t) - 1] == t[digit_run_start(t) - 1]);
        }
    }
}

proof fn lemma_digits_grow(s: Seq<char>, i: int, j: int)
    requires
        0 <= i <= j <= s.len(),
        forall|k: int| 0 <= k < s.len() ==> is_digit(#[trigger] s[k]),
    ensures
        digits_value(s.subrange(0, i)) <= digits_value(s.subrange(0, j)),
    decreases j - i,
{
    if i < j {
        lemma_digits_grow(s, i, j - 1);
        assert(s.subrange(0, j).drop_last() =~= s.subrange(0, j - 1));
        assert(is_digit(s[j - 1]));
    }
}

/// Turns a page cursor into the index of the page it designates. A cursor is
/// either a bare decimal index or a page address whose trailing `page`
/// parameter holds the index; anything else, or an index beyond `u64`, is a
/// protocol violation.
pub fn normalize_page_token(token: &str) -> (r: Result<u64, ClientError>)
    ensures
        match r {
            Ok(n) => page_index_of(token@) == Some(n as nat),
            Err(e) => e == ClientError::ProtocolError && match page_index_of(token@) {
                None => true,
                Some(v) => v > u64::MAX,
            },
        },
{
    let ghost t = token@;
    let n = token.unicode_len();
    let mut k: usize = n;
    proof {
        lemma_run_start(t);
        assert(t.subrange(0, n as int) =~= t);
    }
    while k > 0 && is_digit_char(token.get_char(k - 1))
        invariant
            k <= n,
            n == t.len(),
            t == token@,
            digit_run_start(t.subrange(0, k as int)) == digit_run_start(t),
        decreases k,
    {
        proof {
            assert(t.subrange(0, k as int).drop_last() =~= t.subrange(0, k - 1));
        }
        k = k - 1;
    }
    proof {
        if k > 0 {
            assert(t.subrange(0, k as int).last() == t[k - 1]);
        }
        assert(digit_run_start(t.subrange(0, k as int)) == k);
    }
    if k == n {
        return Err(ClientError::ProtocolError);
    }
    if k > 0 {
        if k < 6 {
            return Err(ClientError::ProtocolError);
        }
        let c = token.get_char(k - 6);
        let framed = (c == '?' || c == '&') && token.get_char(k - 5) == 'p'
            && token.get_char(k - 4) == 'a' && token.get_char(k - 3) == 'g'
            && token.get_char(k - 2) == 'e' && token.get_char(k - 1) == '=';
        proof {
            let w = t.subrange(k - 6, k as int);
            if framed {
                if c == '?' {
                    assert(w =~= page_param_query());
                } else {
                    assert(w =~= page_param_next());
                }
            } else {
                assert(w[0] == t[k - 6]);
                assert(w[1] == t[k - 5]);
                assert(w[2] == t[k - 4]);
                assert(w[3] == t[k - 3]);
                assert(w[4] == t[k - 2]);
                assert(w[5] == t[k - 1]);
                assert(page_param_query()[0] == '?');
                assert(page_param_next()[0] == '&');
            }
        }
        if !framed {
            return Err(ClientError::ProtocolError);
        }
    }
    let ghost d = t.skip(k as int);
    assert(page_index_of(t) == Some(digits_value(d)));
    let mut acc: u64 = 0;
    let mut i: usize = k;
    while i < n
        invariant
            k <= i <= n,
            n == t.len(),
            t == token@,
            d == t.skip(k as int),
            forall|q: int| k <= q < n ==> is_digit(#[trigger] t[q]),
            acc as nat == digits_value(d.subrange(0, i - k)),
            page_index_of(t) == Some(digits_value(d)),
        decreases n - i,
    {
        let c = token.get_char(i);
        let dv: u64 = (c as u32 - '0' as u32) as u64;
        proof {
            assert(d.subrange(0, i + 1 - k).drop_last() =~= d.subrange(0, i - k));
            assert(d.subrange(0, i + 1 - k).last() == c);
        }
        match acc.checked_mul(10) {
            Some(m) => match m.checked_add(dv) {
                Some(s) => {
                    acc = s;
                },
                None => {
                    proof {
                        assert forall|q: int| 0 <= q < d.len() implies is_digit(#[trigger] d[q]) by {
                            assert(d[q] == t[q + k]);
                        }
                        lemma_digits_grow(d, i + 1 - k, d.len() as int);
                        assert(d.subrange(0, d.len() as int) =~= d);
                    }
                    return Err(ClientError::ProtocolError);
                },
            },
            None => {
                proof {
                    assert forall|q: int| 0 <= q < d.len() implies is_digit(#[trigger] d[q]) by {
                        assert(d[q] == t[q + k]);
                    }
                    lemma_digits_grow(d, i + 1 - k, d.len() as int);
                    assert(d.subrange(0, d.len() as int) =~= d);
                }
                return Err(ClientError::ProtocolError);
            },
        }
        i = i + 1;
    }
    proof {
        assert(d.subrange(0, n - k) =~= d);
    }
    Ok(acc)
}

proof fn lemma_decimal_digits(n: nat)
    ensures
        decimal(n).len() > 0,
        forall|i: int| 0 <= i < decimal(n).len() ==> is_digit(#[trigger] decimal(n)[i]),
        digits_value(decimal(n)) == n,
    decreases n,
{
    if n >= 10 {
        lemma_decimal_digits(n / 10);
        let d = decimal(n);
        assert(d.drop_last() =~= decimal(n / 10));
        assert(digit_char(n % 10) as int == '0' as int + (n % 10) as int);
        assert(n == (n / 10) * 10 + n % 10);
        assert(d.last() == digit_char(n % 10));
        assert(digits_value(d) == (digits_value(d.drop_last()) * 10 + (d.last() as int - '0' as int)) as nat);
        assert forall|i: int| 0 <= i < d.len() implies is_digit(#[trigger] d[i]) by {
            if i < d.len() - 1 {
                assert(d[i] == decimal(n / 10)[i]);
            }
        }
    }
    else {
        assert(decimal(n).drop_last() =~= Seq::<char>::empty());
        assert(digit_char(n) as int == '0' as int + n as int);
        assert(decimal(n).last() == digit_char(n));
        assert(digits_value(decimal(n).drop_last()) == 0);
    }
}

proof fn lemma_run_start_after(p: Seq<char>, d: Seq<char>)
    requires
        p.len() > 0,
        !is_digit(p.last()),
        forall|i: int| 0 <= i < d.len() ==> is_digit(#[trigger] d[i]),
    ensures
        digit_run_start(p + d) == p.len(),
    decreases d.len(),
{
    if d.len() == 0 {
        assert(p + d =~= p);
    } else {
        assert((p + d).drop_last() =~= p + d.drop_last());
        assert((p + d).last() == d[d.len() - 1]);
        lemma_run_start_after(p, d.drop_last());
    }
}

/// A bare decimal index designates the page it spells.
pub proof fn lemma_bare_index_designates(n: u64)
    ensures
        page_index_of(decimal(n as nat)) == Some(n as nat),
{
    let d = decimal(n as nat);
    lemma_decimal_digits(n as nat);
    lemma_run_start(d);
    if digit_run_start(d) > 0 {
        assert(is_digit(d[digit_run_start(d) - 1]));
    }
    assert(d.skip(0) =~= d);
}

/// The address built for page `n` of a session designates page `n` again,
/// so both forms of cursor lead to the same page.
pub proof fn lemma_page_url_designates(
    base: Seq<char>,
    container: Seq<char>,
    search_id: Seq<char>,
    n: u64,
)
    ensures
        page_index_of(page_url_of(base, container, search_id, Some(n))) == Some(n as nat),
{
    reveal_strlit("?page=");
    let p = search_url(base, container, search_id) + "?page="@;
    let d = decimal(n as nat);
    let t = page_url_of(base, container, search_id, Some(n));
    assert(t == p + d);
    lemma_decimal_digits(n as nat);
    assert(p.last() == '=');
    lemma_run_start_after(p, d);
    let k = p.len() as int;
    assert(t.subrange(k - 6, k) =~= page_param_query());
    assert(t.skip(k) =~= d);
}

fn is_digit_char(c: char) -> (r: bool)
    ensures
        r == is_digit(c),
{
    '0' <= c && c <= '9'
}

} // verus!
