//! Small helpers around fetching.
use vstd::prelude::*;

use crate::strs::{chars_of, ends_with, matches_at, string_of};

verus! {

/// The fetch timeout for a URL: the base, plus 100 ms for each full 20
/// characters of the URL.
pub open spec fn timeout_ms(base_ms: nat, url_length: nat) -> nat {
    base_ms + (url_length / 20) * 100
}

/// The fetch timeout in milliseconds for a URL of `url_length` characters.
pub fn calculate_timeout(base_ms: u64, url_length: usize) -> (r: u64)
    requires
        timeout_ms(base_ms as nat, url_length as nat) <= u64::MAX,
    ensures
        r == timeout_ms(base_ms as nat, url_length as nat),
{
    let steps: u64 = (url_length / 20) as u64;
    assert(steps * 100 <= u64::MAX - base_ms) by (nonlinear_arith)
        requires
            steps == url_length as nat / 20,
            base_ms + (url_length as nat / 20) * 100 <= u64::MAX,
    ;
    base_ms + steps * 100
}

/// Reading `s` from the left: the text kept so far, and the characters
/// read since the last removed occurrence of `pat`.
pub open spec fn removal_state(s: Seq<char>, pat: Seq<char>) -> (Seq<char>, Seq<char>)
    decreases s.len(),
{
    if s.len() == 0 {
        (Seq::empty(), Seq::empty())
    } else {
        let prev = removal_state(s.drop_last(), pat);
        let cur = prev.1.push(s.last());
        if ends_with(cur, pat) {
            (prev.0 + cur.subrange(0, cur.len() - pat.len()), Seq::empty())
        } else {
            (prev.0, cur)
        }
    }
}

/// `s` without the non-overlapping occurrences of `pat`, found from the left.
pub open spec fn remove_all(s: Seq<char>, pat: Seq<char>) -> Seq<char> {
    removal_state(s, pat).0 + removal_state(s, pat).1
}

/// A character as it stands in a file name: path and query punctuation
/// becomes `_`.
pub open spec fn file_name_char(c: char) -> char {
    if c == '/' || c == ':' || c == '?' || c == '&' || c == '=' || c == '#' || c == '%' {
        '_'
    } else {
        c
    }
}

/// The number of bytes of `c` in UTF-8.
pub open spec fn utf8_len(c: char) -> nat {
    let u = c as u32;
    if u < 0x80 {
        1
    } else if u < 0x800 {
        2
    } else if u < 0x10000 {
        3
    } else {
        4
    }
}

/// The longest prefix of `s` whose UTF-8 form has at most `n` bytes.
pub open spec fn byte_prefix(s: Seq<char>, n: nat) -> Seq<char>
    decreases s.len(),
{
    if s.len() == 0 || utf8_len(s[0]) > n {
        Seq::empty()
    } else {
        seq![s[0]] + byte_prefix(s.drop_first(), (n - utf8_len(s[0])) as nat)
    }
}

/// The file name for a URL: schemes removed, punctuation replaced, and cut
/// to at most 100 bytes at a character boundary.
pub open spec fn sanitized(url: Seq<char>) -> Seq<char> {
    byte_prefix(
        remove_all(remove_all(url, "http://"@), "https://"@).map_values(|c: char| file_name_char(c)),
        100,
    )
}

fn remove_all_chars(s: &Vec<char>, pat: &Vec<char>) -> (r: Vec<char>)
    ensures
        r@ == remove_all(s@, pat@),
{
    let mut done: Vec<char> = Vec::new();
    let mut cur: Vec<char> = Vec::new();
    let mut i: usize = 0;
    while i < s.len()
        invariant
            i <= s.len(),
            (done@, cur@) == removal_state(s@.subrange(0, i as int), pat@),
        decreases s.len() - i,
    {
        assert(s@.subrange(0, i + 1).drop_last() =~= s@.subrange(0, i as int));
        cur.push(s[i]);
        if pat.len() <= cur.len() && matches_at(&cur, pat, cur.len() - pat.len()) {
            let keep = cur.len() - pat.len();
            let mut k: usize = 0;
            let ghost before = done@;
            while k < keep
                invariant
                    keep <= cur.len(),
                    k <= keep,
                    done@ == before + cur@.subrange(0, k as int),
                decreases keep - k,
            {
                done.push(cur[k]);
                k += 1;
                assert(done@ =~= before + cur@.subrange(0, k as int));
            }
            cur = Vec::new();
        }
        i += 1;
    }
    assert(s@.subrange(0, s.len() as int) =~= s@);
    done.append(&mut cur);
    done
}

fn file_name_char_of(c: char) -> (r: char)
    ensures
        r == file_name_char(c),
{
    if c == '/' || c == ':' || c == '?' || c == '&' || c == '=' || c == '#' || c == '%' {
        '_'
    } else {
        c
    }
}

fn utf8_len_of(c: char) -> (r: usize)
    ensures
        r == utf8_len(c),
{
    let u = c as u32;
    if u < 0x80 {
        1
    } else if u < 0x800 {
        2
    } else if u < 0x10000 {
        3
    } else {
        4
    }
}

/// Converts a URL to a file name: `http://` and `https://` removed, the
/// characters `/ : ? & = # %` replaced by `_`, and the result cut to its
/// longest prefix of at most 100 bytes.
pub fn sanitize_filename(url: &str) -> (r: String)
    ensures
        r@ == sanitized(url@),
{
    let cs = chars_of(url);
    let http = chars_of("http://");
    let https = chars_of("https://");
    let a = remove_all_chars(&cs, &http);
    let b = remove_all_chars(&a, &https);
    let mut mapped: Vec<char> = Vec::new();
    let mut i: usize = 0;
    while i < b.len()
        invariant
            i <= b.len(),
            mapped@ == b@.subrange(0, i as int).map_values(|c: char| file_name_char(c)),
        decreases b.len() - i,
    {
        mapped.push(file_name_char_of(b[i]));
        i += 1;
        assert(mapped@ =~= b@.subrange(0, i as int).map_values(|c: char| file_name_char(c)));
    }
    assert(b@.subrange(0, b.len() as int) =~= b@);
    let ghost m = mapped@;
    let mut out: Vec<char> = Vec::new();
    let mut used: usize = 0;
    let mut j: usize = 0;
    assert(m.subrange(0, m.len() as int) =~= m);
    while j < mapped.len()
        invariant_except_break
            m == mapped@,
            j <= mapped.len(),
            used <= 100,
            out@ == m.subrange(0, j as int),
            byte_prefix(m, 100) == out@ + byte_prefix(
                m.subrange(j as int, m.len() as int),
                (100 - used) as nat,
            ),
        ensures
            out@ == byte_prefix(m, 100),
        decreases mapped.len() - j,
    {
        let ghost rest = m.subrange(j as int, m.len() as int);
        let n = utf8_len_of(mapped[j]);
        if n > 100 - used {
            assert(byte_prefix(rest, (100 - used) as nat) =~= Seq::<char>::empty());
            assert(out@ + Seq::<char>::empty() =~= out@);
            break;
        }
        proof {
            assert(rest.drop_first() =~= m.subrange(j + 1, m.len() as int));
            assert(out@.push(m[j as int]) + byte_prefix(
                m.subrange(j + 1, m.len() as int),
                (100 - used - n) as nat,
            ) =~= out@ + (seq![rest[0]] + byte_prefix(rest.drop_first(), (100 - used - n) as nat)));
        }
        out.push(mapped[j]);
        used = used + n;
        j += 1;
        assert(out@ =~= m.subrange(0, j as int));
    }
    proof {
        if j == mapped.len() {
            assert(m.subrange(j as int, m.len() as int) =~= Seq::<char>::empty());
            assert(out@ + Seq::<char>::empty() =~= out@);
        }
    }
    string_of(&out)
}

} // verus!
