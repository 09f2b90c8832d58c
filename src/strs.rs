//! Character-level text primitives: whitespace, trimming, lines, joining
//! and splitting, each stated as a spec function over `Seq<char>` that its
//! executable counterpart is proved to compute.
use vstd::prelude::*;

verus! {

/// Relies on `String::push`: the character is appended at the end.
#[verifier::external_body]
fn push_char(s: &mut String, c: char)
    ensures
        final(s)@ == old(s)@.push(c),
{
    s.push(c)
}

/// The views of a sequence of character vectors.
pub open spec fn char_views(v: Seq<Vec<char>>) -> Seq<Seq<char>> {
    v.map_values(|x: Vec<char>| x@)
}

/// The views of a sequence of strings.
pub open spec fn string_views(v: Seq<String>) -> Seq<Seq<char>> {
    v.map_values(|x: String| x@)
}

/// Unicode's `White_Space` property, which `char::is_whitespace` follows.
pub open spec fn is_ws(c: char) -> bool {
    let u = c as u32;
    (0x9 <= u && u <= 0xD) || u == 0x20 || u == 0x85 || u == 0xA0 || u == 0x1680 || (0x2000 <= u
        && u <= 0x200A) || u == 0x2028 || u == 0x2029 || u == 0x202F || u == 0x205F || u == 0x3000
}

/// `s` without leading whitespace.
pub open spec fn trim_start(s: Seq<char>) -> Seq<char>
    decreases s.len(),
{
    if s.len() > 0 && is_ws(s[0]) {
        trim_start(s.drop_first())
    } else {
        s
    }
}

/// `s` without trailing whitespace.
pub open spec fn trim_end(s: Seq<char>) -> Seq<char>
    decreases s.len(),
{
    if s.len() > 0 && is_ws(s.last()) {
        trim_end(s.drop_last())
    } else {
        s
    }
}

/// `s` without leading or trailing whitespace.
pub open spec fn trim(s: Seq<char>) -> Seq<char> {
    trim_end(trim_start(s))
}

/// The pieces of `s` between occurrences of `sep`, in order; there is always
/// at least one piece, and the last one may be empty.
pub open spec fn split_char(s: Seq<char>, sep: char) -> Seq<Seq<char>>
    decreases s.len(),
{
    if s.len() == 0 {
        seq![Seq::empty()]
    } else {
        let prev = split_char(s.drop_last(), sep);
        if s.last() == sep {
            prev.push(Seq::empty())
        } else {
            prev.update(prev.len() - 1, prev.last().push(s.last()))
        }
    }
}

/// A line without the carriage return that ended it.
pub open spec fn strip_cr(l: Seq<char>) -> Seq<char> {
    if l.len() > 0 && l.last() == '\r' {
        l.drop_last()
    } else {
        l
    }
}

/// The lines of `s` as `str::lines` yields them: split at each `\n`, a `\r`
/// before the `\n` dropped, and no empty line after a final `\n`.
pub open spec fn lines(s: Seq<char>) -> Seq<Seq<char>> {
    let parts = split_char(s, '\n');
    let ended = parts.drop_last().map_values(|l: Seq<char>| strip_cr(l));
    if parts.last().len() == 0 {
        ended
    } else {
        ended.push(parts.last())
    }
}

/// The parts joined with `sep` between each two neighbours.
pub open spec fn join(parts: Seq<Seq<char>>, sep: Seq<char>) -> Seq<char>
    decreases parts.len(),
{
    if parts.len() == 0 {
        Seq::empty()
    } else if parts.len() == 1 {
        parts[0]
    } else {
        join(parts.drop_last(), sep) + sep + parts.last()
    }
}

/// Reading `s` from the left: the text kept so far, and whether whitespace
/// has been seen since the last word.
pub open spec fn collapse_state(s: Seq<char>) -> (Seq<char>, bool)
    decreases s.len(),
{
    if s.len() == 0 {
        (Seq::empty(), false)
    } else {
        let prev = collapse_state(s.drop_last());
        let c = s.last();
        if is_ws(c) {
            (prev.0, prev.0.len() > 0)
        } else if prev.1 {
            (prev.0.push(' ').push(c), false)
        } else {
            (prev.0.push(c), false)
        }
    }
}

/// The whitespace-separated words of `s` joined by single spaces.
pub open spec fn collapse_ws(s: Seq<char>) -> Seq<char> {
    collapse_state(s).0
}

/// Reading `s` from the left: the pieces finished so far by a blank-line
/// separator `\n\n`, and the piece being read.
pub open spec fn split_blank_state(s: Seq<char>) -> (Seq<Seq<char>>, Seq<char>)
    decreases s.len(),
{
    if s.len() == 0 {
        (Seq::empty(), Seq::empty())
    } else {
        let prev = split_blank_state(s.drop_last());
        let c = s.last();
        if c == '\n' && prev.1.len() > 0 && prev.1.last() == '\n' {
            (prev.0.push(prev.1.drop_last()), Seq::empty())
        } else {
            (prev.0, prev.1.push(c))
        }
    }
}

/// The pieces of `s` between non-overlapping occurrences of `\n\n`, taken
/// from the left, as `str::split("\n\n")` yields them.
pub open spec fn split_blank(s: Seq<char>) -> Seq<Seq<char>> {
    split_blank_state(s).0.push(split_blank_state(s).1)
}

/// The characters of `s`.
pub fn chars_of(s: &str) -> (r: Vec<char>)
    ensures
        r@ == s@,
{
    let mut out: Vec<char> = Vec::new();
    for c in it: s.chars()
        invariant
            it.seq() == s@,
            out@ == it.seq().subrange(0, it.index() as int),
    {
        out.push(c);
    }
    out
}

/// A string of the given characters.
pub fn string_of(cs: &Vec<char>) -> (r: String)
    ensures
        r@ == cs@,
{
    let mut out = String::new();
    let mut i: usize = 0;
    while i < cs.len()
        invariant
            i <= cs.len(),
            out@ == cs@.subrange(0, i as int),
        decreases cs.len() - i,
    {
        push_char(&mut out, cs[i]);
        i += 1;
    }
    out
}

/// Whether `c` is whitespace, as `char::is_whitespace` decides.
pub fn is_whitespace(c: char) -> (r: bool)
    ensures
        r == is_ws(c),
{
    let u = c as u32;
    (0x9 <= u && u <= 0xD) || u == 0x20 || u == 0x85 || u == 0xA0 || u == 0x1680 || (0x2000 <= u
        && u <= 0x200A) || u == 0x2028 || u == 0x2029 || u == 0x202F || u == 0x205F || u == 0x3000
}

proof fn lemma_trim_start_skip(s: Seq<char>, i: int)
    requires
        0 <= i < s.len(),
        is_ws(s[i]),
    ensures
        trim_start(s.subrange(i, s.len() as int)) == trim_start(s.subrange(i + 1, s.len() as int)),
{
    assert(s.subrange(i, s.len() as int).drop_first() =~= s.subrange(i + 1, s.len() as int));
}

/// `s` without leading or trailing whitespace.
pub fn trim_chars(s: &Vec<char>) -> (r: Vec<char>)
    ensures
        r@ == trim(s@),
{
    let mut i: usize = 0;
    assert(s@.subrange(0, s.len() as int) =~= s@);
    while i < s.len() && is_whitespace(s[i])
        invariant
            i <= s.len(),
            trim_start(s@) == trim_start(s@.subrange(i as int, s.len() as int)),
        decreases s.len() - i,
    {
        proof {
            lemma_trim_start_skip(s@, i as int);
        }
        i += 1;
    }
    let ghost t = s@.subrange(i as int, s.len() as int);
    assert(trim_start(s@) == t) by {
        assert(s@.subrange(i as int, s.len() as int) =~= t);
    }
    let mut j: usize = s.len();
    while j > i && is_whitespace(s[j - 1])
        invariant
            i <= j <= s.len(),
            t == s@.subrange(i as int, s.len() as int),
            trim_end(t) == trim_end(s@.subrange(i as int, j as int)),
        decreases j,
    {
        proof {
            let u = s@.subrange(i as int, j as int);
            assert(u.drop_last() =~= s@.subrange(i as int, j - 1));
        }
        j -= 1;
    }
    let mut out: Vec<char> = Vec::new();
    let mut k: usize = i;
    while k < j
        invariant
            i <= k <= j <= s.len(),
            out@ == s@.subrange(i as int, k as int),
        decreases j - k,
    {
        out.push(s[k]);
        k += 1;
    }
    proof {
        let u = s@.subrange(i as int, j as int);
        if u.len() > 0 {
            assert(!is_ws(u.last()));
        }
        assert(trim_end(u) == u);
        assert(out@ =~= u);
    }
    out
}

/// Whether every character of `s` is whitespace, which is when `trim` leaves nothing.
pub fn is_blank(s: &Vec<char>) -> (r: bool)
    ensures
        r == (trim(s@).len() == 0),
{
    let t = trim_chars(s);
    t.len() == 0
}

/// The lines of `s`, as `lines` describes them.
pub fn lines_of(s: &Vec<char>) -> (r: Vec<Vec<char>>)
    ensures
        char_views(r@) == lines(s@),
{
    let mut done: Vec<Vec<char>> = Vec::new();
    let mut cur: Vec<char> = Vec::new();
    let mut i: usize = 0;
    while i < s.len()
        invariant
            i <= s.len(),
            split_char(s@.subrange(0, i as int), '\n').len() >= 1,
            char_views(done@) == split_char(s@.subrange(0, i as int), '\n').drop_last().map_values(
                |l: Seq<char>| strip_cr(l),
            ),
            cur@ == split_char(s@.subrange(0, i as int), '\n').last(),
        decreases s.len() - i,
    {
        let ghost pre = s@.subrange(0, i as int);
        let ghost next = s@.subrange(0, i + 1);
        assert(next.drop_last() =~= pre);
        let ghost prev = split_char(pre, '\n');
        let c = s[i];
        if c == '\n' {
            let stripped = if cur.len() > 0 && cur[cur.len() - 1] == '\r' {
                let mut t: Vec<char> = Vec::new();
                let mut k: usize = 0;
                while k + 1 < cur.len()
                    invariant
                        cur.len() > 0,
                        k + 1 <= cur.len(),
                        t@ == cur@.subrange(0, k as int),
                    decreases cur.len() - k,
                {
                    t.push(cur[k]);
                    k += 1;
                }
                assert(t@ =~= cur@.drop_last());
                t
            } else {
                cur.clone()
            };
            assert(stripped@ == strip_cr(cur@));
            done.push(stripped);
            cur = Vec::new();
            proof {
                let nsplit = split_char(next, '\n');
                assert(nsplit == prev.push(Seq::empty()));
                assert(nsplit.drop_last() =~= prev);
                assert(char_views(done@) =~= nsplit.drop_last().drop_last().map_values(
                    |l: Seq<char>| strip_cr(l),
                ).push(strip_cr(cur@)).drop_last().push(strip_cr(prev.last()))) by {
                    assert(prev.drop_last().map_values(|l: Seq<char>| strip_cr(l)).push(
                        strip_cr(prev.last()),
                    ) =~= prev.map_values(|l: Seq<char>| strip_cr(l)));
                }
                assert(char_views(done@) =~= nsplit.drop_last().map_values(
                    |l: Seq<char>| strip_cr(l),
                )) by {
                    assert(prev.drop_last().map_values(|l: Seq<char>| strip_cr(l)).push(
                        strip_cr(prev.last()),
                    ) =~= prev.map_values(|l: Seq<char>| strip_cr(l)));
                }
                assert(cur@ =~= nsplit.last());
            }
        } else {
            cur.push(c);
            proof {
                let nsplit = split_char(next, '\n');
                assert(nsplit == prev.update(prev.len() - 1, prev.last().push(c)));
                assert(nsplit.drop_last() =~= prev.drop_last());
                assert(cur@ =~= nsplit.last());
            }
        }
        i += 1;
    }
    assert(s@.subrange(0, s.len() as int) =~= s@);
    if cur.len() > 0 {
        done.push(cur);
        assert(char_views(done@) =~= lines(s@));
    } else {
        assert(char_views(done@) =~= lines(s@));
    }
    done
}

/// The parts joined with `sep` between each two neighbours.
pub fn join_chars(parts: &Vec<Vec<char>>, sep: &Vec<char>) -> (r: Vec<char>)
    ensures
        r@ == join(char_views(parts@), sep@),
{
    let mut out: Vec<char> = Vec::new();
    let mut i: usize = 0;
    while i < parts.len()
        invariant
            i <= parts.len(),
            out@ == join(char_views(parts@.subrange(0, i as int)), sep@),
        decreases parts.len() - i,
    {
        let ghost before = char_views(parts@.subrange(0, i as int));
        let ghost after = char_views(parts@.subrange(0, i + 1));
        assert(after.drop_last() =~= before);
        if i > 0 {
            append_chars(&mut out, sep);
        }
        append_chars(&mut out, &parts[i]);
        i += 1;
    }
    assert(parts@.subrange(0, parts.len() as int) =~= parts@);
    out
}

/// Appends `b` to `a`.
pub fn append_chars(a: &mut Vec<char>, b: &Vec<char>)
    ensures
        final(a)@ == old(a)@ + b@,
{
    let mut i: usize = 0;
    while i < b.len()
        invariant
            i <= b.len(),
            a@ == old(a)@ + b@.subrange(0, i as int),
        decreases b.len() - i,
    {
        a.push(b[i]);
        i += 1;
        assert(a@ =~= old(a)@ + b@.subrange(0, i as int));
    }
    assert(b@.subrange(0, b.len() as int) =~= b@);
}

/// The whitespace-separated words of `s` joined by single spaces.
pub fn collapse_chars(s: &Vec<char>) -> (r: Vec<char>)
    ensures
        r@ == collapse_ws(s@),
{
    let mut out: Vec<char> = Vec::new();
    let mut pending = false;
    let mut i: usize = 0;
    while i < s.len()
        invariant
            i <= s.len(),
            (out@, pending) == collapse_state(s@.subrange(0, i as int)),
        decreases s.len() - i,
    {
        assert(s@.subrange(0, i + 1).drop_last() =~= s@.subrange(0, i as int));
        let c = s[i];
        if is_whitespace(c) {
            pending = out.len() > 0;
        } else {
            if pending {
                out.push(' ');
            }
            out.push(c);
            pending = false;
        }
        i += 1;
    }
    assert(s@.subrange(0, s.len() as int) =~= s@);
    out
}

/// The pieces of `s` between non-overlapping occurrences of `\n\n`.
pub fn split_blank_chars(s: &Vec<char>) -> (r: Vec<Vec<char>>)
    ensures
        char_views(r@) == split_blank(s@),
{
    let mut done: Vec<Vec<char>> = Vec::new();
    let mut cur: Vec<char> = Vec::new();
    let mut i: usize = 0;
    while i < s.len()
        invariant
            i <= s.len(),
            (char_views(done@), cur@) == split_blank_state(s@.subrange(0, i as int)),
        decreases s.len() - i,
    {
        assert(s@.subrange(0, i + 1).drop_last() =~= s@.subrange(0, i as int));
        let c = s[i];
        if c == '\n' && cur.len() > 0 && cur[cur.len() - 1] == '\n' {
            cur.pop();
            done.push(cur);
            cur = Vec::new();
            assert(char_views(done@) =~= split_blank_state(s@.subrange(0, i + 1)).0);
        } else {
            cur.push(c);
        }
        i += 1;
    }
    assert(s@.subrange(0, s.len() as int) =~= s@);
    done.push(cur);
    assert(char_views(done@) =~= split_blank(s@));
    done
}

} // verus!

verus! {

/// Whether `s` ends with `suf`.
pub open spec fn ends_with(s: Seq<char>, suf: Seq<char>) -> bool {
    s.len() >= suf.len() && s.subrange(s.len() - suf.len(), s.len() as int) == suf
}

/// Whether `s` starts with `pre`.
pub open spec fn starts_with(s: Seq<char>, pre: Seq<char>) -> bool {
    s.len() >= pre.len() && s.subrange(0, pre.len() as int) == pre
}

/// Whether `t` occurs in `s` at position `i`.
pub open spec fn occurs_at(s: Seq<char>, t: Seq<char>, i: int) -> bool {
    0 <= i && i + t.len() <= s.len() && s.subrange(i, i + t.len()) == t
}

/// Whether `t` occurs somewhere in `s`.
pub open spec fn contains_seq(s: Seq<char>, t: Seq<char>) -> bool {
    exists|i: int| occurs_at(s, t, i)
}

/// Whether `t` occurs in `s` at position `i`.
pub fn matches_at(s: &Vec<char>, t: &Vec<char>, i: usize) -> (r: bool)
    ensures
        r == occurs_at(s@, t@, i as int),
{
    if i > s.len() || t.len() > s.len() - i {
        return false;
    }
    let mut k: usize = 0;
    while k < t.len()
        invariant
            i + t.len() <= s.len(),
            k <= t.len(),
            s@.subrange(i as int, i + k) == t@.subrange(0, k as int),
        decreases t.len() - k,
    {
        if s[i + k] != t[k] {
            assert(s@.subrange(i as int, i + t.len())[k as int] != t@[k as int]);
            return false;
        }
        k += 1;
        assert(s@.subrange(i as int, i + k) =~= t@.subrange(0, k as int));
    }
    assert(t@.subrange(0, t.len() as int) =~= t@);
    true
}

/// Whether `s` ends with the characters of `suf`.
pub fn has_suffix(s: &Vec<char>, suf: &str) -> (r: bool)
    ensures
        r == ends_with(s@, suf@),
{
    let t = chars_of(suf);
    if t.len() > s.len() {
        return false;
    }
    matches_at(s, &t, s.len() - t.len())
}

/// Whether `s` starts with `pre`.
pub fn has_prefix(s: &Vec<char>, pre: &Vec<char>) -> (r: bool)
    ensures
        r == starts_with(s@, pre@),
{
    matches_at(s, pre, 0)
}

/// Whether the characters of `t` occur somewhere in `s`.
pub fn has_substring(s: &Vec<char>, t: &str) -> (r: bool)
    ensures
        r == contains_seq(s@, t@),
{
    let tc = chars_of(t);
    let mut i: usize = 0;
    while i < s.len()
        invariant
            tc@ == t@,
            i <= s.len(),
            forall|j: int| 0 <= j < i ==> !occurs_at(s@, t@, j),
        decreases s.len() - i,
    {
        if matches_at(s, &tc, i) {
            return true;
        }
        i += 1;
    }
    if matches_at(s, &tc, i) {
        return true;
    }
    assert forall|j: int| !occurs_at(s@, t@, j) by {
        if 0 <= j && j + t@.len() <= s@.len() {
            assert(j <= i);
        }
    }
    false
}

} // verus!

verus! {

/// Mapping a sequence with one more element at its end.
pub proof fn lemma_map_push<A, B>(s: Seq<A>, x: A, f: spec_fn(A) -> B)
    ensures
        s.push(x).map_values(f) == s.map_values(f).push(f(x)),
{
    assert(s.push(x).map_values(f) =~= s.map_values(f).push(f(x)));
}

/// The views of character vectors with one more at the end.
pub proof fn lemma_char_views_push(s: Seq<Vec<char>>, x: Vec<char>)
    ensures
        char_views(s.push(x)) == char_views(s).push(x@),
{
    assert(char_views(s.push(x)) =~= char_views(s).push(x@));
}

/// The views of strings with one more at the end.
pub proof fn lemma_string_views_push(s: Seq<String>, x: String)
    ensures
        string_views(s.push(x)) == string_views(s).push(x@),
{
    assert(string_views(s.push(x)) =~= string_views(s).push(x@));
}

/// Whether `s` holds no newline.
pub open spec fn no_newline(s: Seq<char>) -> bool {
    forall|i: int| 0 <= i < s.len() ==> s[i] != '\n'
}

/// Reading on past text without newlines only extends the piece being read.
pub proof fn lemma_split_blank_extend(s: Seq<char>, q: Seq<char>)
    requires
        no_newline(q),
    ensures
        split_blank_state(s + q) == (split_blank_state(s).0, split_blank_state(s).1 + q),
    decreases q.len(),
{
    if q.len() == 0 {
        assert(s + q =~= s);
        assert(split_blank_state(s).1 + q =~= split_blank_state(s).1);
    } else {
        let q0 = q.drop_last();
        assert(no_newline(q0)) by {
            assert forall|i: int| 0 <= i < q0.len() implies q0[i] != '\n' by {
                assert(q0[i] == q[i]);
            }
        }
        lemma_split_blank_extend(s, q0);
        assert((s + q).drop_last() =~= s + q0);
        assert((s + q).last() == q.last());
        assert(q.last() != '\n') by {
            assert(q[q.len() - 1] != '\n');
        }
        assert((split_blank_state(s).1 + q0).push(q.last()) =~= split_blank_state(s).1 + q);
    }
}

/// Pieces without newlines joined by blank-line separators split back into
/// the same pieces.
pub proof fn lemma_split_blank_join(qs: Seq<Seq<char>>)
    requires
        qs.len() > 0,
        forall|i: int| 0 <= i < qs.len() ==> no_newline(#[trigger] qs[i]),
    ensures
        split_blank_state(join(qs, seq!['\n', '\n'])) == (qs.drop_last(), qs.last()),
        split_blank(join(qs, seq!['\n', '\n'])) == qs,
    decreases qs.len(),
{
    let sep = seq!['\n', '\n'];
    if qs.len() == 1 {
        lemma_split_blank_extend(Seq::empty(), qs[0]);
        assert(Seq::<char>::empty() + qs[0] =~= qs[0]);
        assert(Seq::<char>::empty() + qs[0] =~= qs[0]);
        assert(qs.drop_last() =~= Seq::<Seq<char>>::empty());
    } else {
        let front = qs.drop_last();
        assert forall|i: int| 0 <= i < front.len() implies no_newline(#[trigger] front[i]) by {
            assert(front[i] == qs[i]);
        }
        lemma_split_blank_join(front);
        let j = join(front, sep);
        let st = split_blank_state(j);
        let c = front.last();
        assert(no_newline(c)) by {
            assert(c == qs[qs.len() - 2]);
        }
        // the first newline only extends the piece being read
        let j1 = j.push('\n');
        assert(j1.drop_last() =~= j);
        if c.len() > 0 {
            assert(c.last() != '\n') by {
                assert(c[c.len() - 1] != '\n');
            }
        }
        assert(split_blank_state(j1) == (st.0, st.1.push('\n')));
        // the second one ends it
        let j2 = j1.push('\n');
        assert(j2.drop_last() =~= j1);
        assert(st.1.push('\n').drop_last() =~= st.1);
        assert(split_blank_state(j2) == (st.0.push(st.1), Seq::<char>::empty()));
        assert(j2 =~= j + sep);
        lemma_split_blank_extend(j2, qs.last());
        assert(no_newline(qs.last())) by {
            assert(qs.last() == qs[qs.len() - 1]);
        }
        assert(join(qs, sep) == j + sep + qs.last());
        assert(Seq::<char>::empty() + qs.last() =~= qs.last());
        assert(front.drop_last().push(front.last()) =~= front);
    }
    assert(split_blank_state(join(qs, sep)).0.push(split_blank_state(join(qs, sep)).1) =~= qs);
}

/// Collapsing whitespace leaves no newline.
pub proof fn lemma_collapse_no_newline(s: Seq<char>)
    ensures
        no_newline(collapse_ws(s)),
    decreases s.len(),
{
    if s.len() > 0 {
        lemma_collapse_no_newline(s.drop_last());
        let prev = collapse_state(s.drop_last()).0;
        let c = s.last();
        if !is_ws(c) {
            assert(c != '\n');
            let out = collapse_state(s).0;
            assert forall|i: int| 0 <= i < out.len() implies out[i] != '\n' by {
                if i < prev.len() {
                    assert(out[i] == prev[i]);
                }
            }
        }
    }
}

/// Text that ends in a character other than whitespace keeps a word.
pub proof fn lemma_collapse_nonempty(s: Seq<char>)
    requires
        s.len() > 0,
        !is_ws(s.last()),
    ensures
        collapse_ws(s).len() > 0,
{
}

/// Trimming a line from its end leaves it empty or ending in a character
/// other than whitespace, and it holds no newline where the line held none.
pub proof fn lemma_trim_end_shape(s: Seq<char>)
    ensures
        trim_end(s).len() > 0 ==> !is_ws(trim_end(s).last()),
        no_newline(s) ==> no_newline(trim_end(s)),
    decreases s.len(),
{
    if s.len() > 0 && is_ws(s.last()) {
        lemma_trim_end_shape(s.drop_last());
        if no_newline(s) {
            assert forall|i: int| 0 <= i < s.drop_last().len() implies s.drop_last()[i] != '\n' by {
                assert(s.drop_last()[i] == s[i]);
            }
        }
    }
}

/// Trimming a line from its start keeps it free of newlines.
pub proof fn lemma_trim_start_no_newline(s: Seq<char>)
    requires
        no_newline(s),
    ensures
        no_newline(trim_start(s)),
    decreases s.len(),
{
    if s.len() > 0 && is_ws(s[0]) {
        assert forall|i: int| 0 <= i < s.drop_first().len() implies s.drop_first()[i] != '\n' by {
            assert(s.drop_first()[i] == s[i + 1]);
        }
        lemma_trim_start_no_newline(s.drop_first());
    }
}

/// The pieces between newlines hold none.
pub proof fn lemma_split_char_no_newline(s: Seq<char>)
    ensures
        forall|i: int|
            0 <= i < split_char(s, '\n').len() ==> no_newline(#[trigger] split_char(s, '\n')[i]),
        split_char(s, '\n').len() >= 1,
    decreases s.len(),
{
    if s.len() > 0 {
        lemma_split_char_no_newline(s.drop_last());
        let prev = split_char(s.drop_last(), '\n');
        let cur = split_char(s, '\n');
        assert forall|i: int| 0 <= i < cur.len() implies no_newline(#[trigger] cur[i]) by {
            if s.last() == '\n' {
                if i < prev.len() {
                    assert(cur[i] == prev[i]);
                }
            } else if i < prev.len() - 1 {
                assert(cur[i] == prev[i]);
            } else {
                let l = prev.last().push(s.last());
                assert(cur[i] == l);
                assert(no_newline(prev[prev.len() - 1]));
                assert forall|k: int| 0 <= k < l.len() implies l[k] != '\n' by {
                    if k < l.len() - 1 {
                        assert(l[k] == prev[prev.len() - 1][k]);
                    }
                }
            }
        }
    }
}

/// The lines of a text hold no newline.
pub proof fn lemma_lines_no_newline(s: Seq<char>)
    ensures
        forall|i: int| 0 <= i < lines(s).len() ==> no_newline(#[trigger] lines(s)[i]),
{
    lemma_split_char_no_newline(s);
    let parts = split_char(s, '\n');
    let ls = lines(s);
    assert forall|i: int| 0 <= i < ls.len() implies no_newline(#[trigger] ls[i]) by {
        if i < parts.len() - 1 {
            let l = parts[i];
            assert(no_newline(l));
            assert(ls[i] == strip_cr(l));
            assert forall|k: int| 0 <= k < strip_cr(l).len() implies strip_cr(l)[k] != '\n' by {
                assert(strip_cr(l)[k] == l[k]);
            }
        } else {
            assert(ls[i] == parts.last());
            assert(no_newline(parts[parts.len() - 1]));
        }
    }
}

/// Whether three newlines stand in a row somewhere in `s`.
pub open spec fn has_triple_newline(s: Seq<char>) -> bool {
    exists|i: int|
        0 <= i && i + 2 < s.len() && #[trigger] s[i] == '\n' && s[i + 1] == '\n' && s[i + 2]
            == '\n'
}

/// Non-empty pieces without newlines, joined by blank-line separators, never
/// hold three newlines in a row.
pub proof fn lemma_join_no_triple_newline(qs: Seq<Seq<char>>)
    requires
        qs.len() > 0,
        forall|i: int| 0 <= i < qs.len() ==> no_newline(#[trigger] qs[i]) && qs[i].len() > 0,
    ensures
        !has_triple_newline(join(qs, seq!['\n', '\n'])),
        join(qs, seq!['\n', '\n']).len() > 0,
        join(qs, seq!['\n', '\n']).last() != '\n',
    decreases qs.len(),
{
    let sep = seq!['\n', '\n'];
    assert(no_newline(qs[qs.len() - 1]) && qs[qs.len() - 1].len() > 0);
    let b = qs.last();
    if qs.len() == 1 {
        assert(b[b.len() - 1] != '\n');
        assert forall|i: int| 0 <= i && i + 2 < b.len() implies !(#[trigger] b[i] == '\n') by {}
    } else {
        let front = qs.drop_last();
        assert forall|i: int| 0 <= i < front.len() implies no_newline(#[trigger] front[i])
            && front[i].len() > 0 by {
            assert(front[i] == qs[i]);
        }
        lemma_join_no_triple_newline(front);
        let a = join(front, sep);
        let r = a + sep + b;
        assert(join(qs, sep) == r);
        assert(r.last() == b[b.len() - 1]);
        assert forall|i: int| 0 <= i && i + 2 < r.len() implies !(#[trigger] r[i] == '\n' && r[i + 1]
            == '\n' && r[i + 2] == '\n') by {
            let n = a.len() as int;
            if i + 2 < n {
                assert(r[i] == a[i] && r[i + 1] == a[i + 1] && r[i + 2] == a[i + 2]);
            } else if i == n - 2 {
                assert(r[i + 1] == a[n - 1]);
            } else if i == n - 1 {
                assert(r[i] == a[n - 1]);
            } else if i == n {
                assert(r[i + 2] == b[0]);
            } else if i == n + 1 {
                assert(r[i + 1] == b[0]);
            } else {
                assert(r[i] == b[i - n - 2]);
            }
        }
    }
}

/// Whether every character of `s` is whitespace.
pub open spec fn all_ws(s: Seq<char>) -> bool {
    forall|k: int| 0 <= k < s.len() ==> is_ws(#[trigger] s[k])
}

/// Trimming leaves nothing exactly where every character is whitespace.
pub proof fn lemma_trim_empty_all_ws(s: Seq<char>)
    ensures
        trim(s).len() == 0 <==> all_ws(s),
{
    lemma_trim_start_all_ws(s);
    lemma_trim_end_empty(trim_start(s));
}

proof fn lemma_trim_end_empty(s: Seq<char>)
    ensures
        trim_end(s).len() == 0 <==> all_ws(s),
    decreases s.len(),
{
    if s.len() > 0 {
        lemma_trim_end_empty(s.drop_last());
        if all_ws(s.drop_last()) && is_ws(s.last()) {
            assert forall|k: int| 0 <= k < s.len() implies is_ws(#[trigger] s[k]) by {
                if k < s.len() - 1 {
                    assert(s[k] == s.drop_last()[k]);
                }
            }
        }
        if all_ws(s) {
            assert(is_ws(s[s.len() - 1]));
            assert forall|k: int| 0 <= k < s.drop_last().len() implies is_ws(
                #[trigger] s.drop_last()[k],
            ) by {
                assert(s.drop_last()[k] == s[k]);
            }
        }
    }
}

proof fn lemma_trim_start_all_ws(s: Seq<char>)
    ensures
        all_ws(trim_start(s)) <==> all_ws(s),
    decreases s.len(),
{
    if s.len() > 0 && is_ws(s[0]) {
        lemma_trim_start_all_ws(s.drop_first());
        if all_ws(s.drop_first()) {
            assert forall|k: int| 0 <= k < s.len() implies is_ws(#[trigger] s[k]) by {
                if k > 0 {
                    assert(s[k] == s.drop_first()[k - 1]);
                }
            }
        }
        if all_ws(s) {
            assert forall|k: int| 0 <= k < s.drop_first().len() implies is_ws(
                #[trigger] s.drop_first()[k],
            ) by {
                assert(s.drop_first()[k] == s[k + 1]);
            }
        }
    }
}

/// Where every piece between newlines is whitespace, so is the whole text.
proof fn lemma_split_char_all_ws(s: Seq<char>)
    requires
        forall|i: int|
            0 <= i < split_char(s, '\n').len() ==> all_ws(#[trigger] split_char(s, '\n')[i]),
    ensures
        all_ws(s),
    decreases s.len(),
{
    if s.len() > 0 {
        lemma_split_char_no_newline(s.drop_last());
        let prev = split_char(s.drop_last(), '\n');
        let cur = split_char(s, '\n');
        if s.last() == '\n' {
            assert forall|i: int| 0 <= i < prev.len() implies all_ws(#[trigger] prev[i]) by {
                assert(prev[i] == cur[i]);
            }
        } else {
            assert forall|i: int| 0 <= i < prev.len() implies all_ws(#[trigger] prev[i]) by {
                if i < prev.len() - 1 {
                    assert(prev[i] == cur[i]);
                } else {
                    let l = cur[prev.len() - 1];
                    assert(all_ws(l));
                    assert(l == prev[i].push(s.last()));
                    assert forall|k: int| 0 <= k < prev[i].len() implies is_ws(
                        #[trigger] prev[i][k],
                    ) by {
                        assert(prev[i][k] == l[k]);
                    }
                }
            }
            let l = cur[prev.len() - 1];
            assert(l.last() == s.last());
            assert(is_ws(l[l.len() - 1]));
        }
        lemma_split_char_all_ws(s.drop_last());
        assert forall|k: int| 0 <= k < s.len() implies is_ws(#[trigger] s[k]) by {
            if k < s.len() - 1 {
                assert(s[k] == s.drop_last()[k]);
            }
        }
    }
}

/// Where every line is whitespace, so is the whole text.
pub proof fn lemma_lines_all_ws(s: Seq<char>)
    requires
        forall|i: int| 0 <= i < lines(s).len() ==> all_ws(#[trigger] lines(s)[i]),
    ensures
        all_ws(s),
{
    lemma_split_char_no_newline(s);
    let parts = split_char(s, '\n');
    let ls = lines(s);
    assert forall|i: int| 0 <= i < parts.len() implies all_ws(#[trigger] parts[i]) by {
        let l = parts[i];
        if i < parts.len() - 1 {
            assert(ls[i] == strip_cr(l));
            assert(all_ws(strip_cr(l)));
            assert forall|k: int| 0 <= k < l.len() implies is_ws(#[trigger] l[k]) by {
                if k < strip_cr(l).len() {
                    assert(strip_cr(l)[k] == l[k]);
                } else {
                    assert(l[k] == '\r');
                }
            }
        } else if l.len() > 0 {
            assert(ls[i] == l);
        }
    }
    lemma_split_char_all_ws(s);
}

} // verus!
