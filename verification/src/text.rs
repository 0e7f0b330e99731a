//! character-level text helpers: whitespace trimming, line splitting,
//! canonical source text, and decimal/hex rendering.

use vstd::prelude::*;

verus! {

// ─── std string wrappers ─────────────────────────────────────────────────────

/// `<str as PartialEq>::eq`: two string slices compare equal exactly when
/// they hold the same characters.
#[verifier::external_body]
pub(crate) fn str_eq(a: &str, b: &str) -> (r: bool)
    ensures
        r == (a@ == b@),
{
    a == b
}

/// `str::chars` collected into a vector: the characters of `s` in order.
#[verifier::external_body]
pub(crate) fn chars_of(s: &str) -> (r: Vec<char>)
    ensures
        r@ == s@,
{
    s.chars().collect()
}

/// `String::from_iter` over characters: a string holding exactly `chars`.
#[verifier::external_body]
pub(crate) fn string_from_chars(chars: &[char]) -> (r: String)
    ensures
        r@ == chars@,
{
    chars.iter().collect()
}

/// `String::push`: appends one character.
#[verifier::external_body]
pub(crate) fn push_char(s: &mut String, c: char)
    ensures
        final(s)@ == old(s)@.push(c),
{
    s.push(c)
}

/// appends a string slice.
pub(crate) fn push_str(s: &mut String, other: &str)
    ensures
        final(s)@ == old(s)@ + other@,
{
    s.append(other)
}

/// an owned copy of a string slice.
pub(crate) fn owned(s: &str) -> (r: String)
    ensures
        r@ == s@,
{
    s.to_owned()
}

// ─── whitespace and trimming ─────────────────────────────────────────────────

/// the Unicode `White_Space` property, which `char::is_whitespace` tests.
pub open spec fn is_ws(c: char) -> bool {
    let u = c as u32;
    ||| 0x09 <= u <= 0x0d
    ||| u == 0x20
    ||| u == 0x85
    ||| u == 0xa0
    ||| u == 0x1680
    ||| 0x2000 <= u <= 0x200a
    ||| u == 0x2028
    ||| u == 0x2029
    ||| u == 0x202f
    ||| u == 0x205f
    ||| u == 0x3000
}

/// decides `is_ws` in executable code.
pub fn char_is_ws(c: char) -> (r: bool)
    ensures
        r == is_ws(c),
{
    let u = c as u32;
    (0x09 <= u && u <= 0x0d) || u == 0x20 || u == 0x85 || u == 0xa0 || u == 0x1680 || (0x2000
        <= u && u <= 0x200a) || u == 0x2028 || u == 0x2029 || u == 0x202f || u == 0x205f || u
        == 0x3000
}

/// `s` without its trailing whitespace.
pub open spec fn trim_end(s: Seq<char>) -> Seq<char>
    decreases s.len(),
{
    if s.len() > 0 && is_ws(s.last()) {
        trim_end(s.drop_last())
    } else {
        s
    }
}

/// `s` without its leading whitespace.
pub open spec fn trim_start(s: Seq<char>) -> Seq<char>
    decreases s.len(),
{
    if s.len() > 0 && is_ws(s[0]) {
        trim_start(s.drop_first())
    } else {
        s
    }
}

/// `s` without leading and trailing whitespace.
pub open spec fn trim(s: Seq<char>) -> Seq<char> {
    trim_start(trim_end(s))
}

/// the number of characters that `trim_end` keeps, as a prefix length.
proof fn lemma_trim_end_is_prefix(s: Seq<char>)
    ensures
        trim_end(s) == s.take(trim_end(s).len() as int),
        trim_end(s).len() <= s.len(),
        trim_end(s).len() == 0 || !is_ws(trim_end(s).last()),
    decreases s.len(),
{
    if s.len() > 0 && is_ws(s.last()) {
        lemma_trim_end_is_prefix(s.drop_last());
        assert(s.drop_last().take(trim_end(s).len() as int) =~= s.take(trim_end(s).len() as int));
    } else {
        assert(s.take(s.len() as int) =~= s);
    }
}

/// `trim_end` of a prefix whose tail beyond `j` is all whitespace.
proof fn lemma_trim_end_ws_tail(s: Seq<char>, j: int)
    requires
        0 <= j <= s.len(),
        forall|k: int| j <= k < s.len() ==> is_ws(#[trigger] s[k]),
    ensures
        trim_end(s) == trim_end(s.take(j)),
    decreases s.len() - j,
{
    if j < s.len() {
        assert(s.drop_last().take(j) =~= s.take(j));
        lemma_trim_end_ws_tail(s.drop_last(), j);
    } else {
        assert(s.take(j) =~= s);
    }
}

/// `trim_start` of a sequence whose first `j` characters are all whitespace.
proof fn lemma_trim_start_ws_head(s: Seq<char>, j: int)
    requires
        0 <= j <= s.len(),
        forall|k: int| 0 <= k < j ==> is_ws(#[trigger] s[k]),
    ensures
        trim_start(s) == trim_start(s.skip(j)),
    decreases j,
{
    if j > 0 {
        assert(s.drop_first().skip(j - 1) =~= s.skip(j));
        lemma_trim_start_ws_head(s.drop_first(), j - 1);
    } else {
        assert(s.skip(0) =~= s);
    }
}

/// returns `chars` without trailing whitespace.
pub fn trim_end_chars(chars: &[char]) -> (r: Vec<char>)
    ensures
        r@ == trim_end(chars@),
{
    let mut j: usize = chars.len();
    while j > 0 && char_is_ws(chars[j - 1])
        invariant
            j <= chars@.len(),
            forall|k: int| j <= k < chars@.len() ==> is_ws(#[trigger] chars@[k]),
        decreases j,
    {
        j = j - 1;
    }
    let mut r: Vec<char> = Vec::new();
    let mut i: usize = 0;
    while i < j
        invariant
            i <= j <= chars@.len(),
            r@ == chars@.take(i as int),
        decreases j - i,
    {
        r.push(chars[i]);
        i = i + 1;
        assert(r@ =~= chars@.take(i as int));
    }
    proof {
        lemma_trim_end_ws_tail(chars@, j as int);
        assert(chars@.take(j as int).len() == 0 || !is_ws(chars@.take(j as int).last()));
    }
    r
}

/// returns `chars` without leading and trailing whitespace.
pub fn trim_chars(chars: &[char]) -> (r: Vec<char>)
    ensures
        r@ == trim(chars@),
{
    let t = trim_end_chars(chars);
    let mut j: usize = 0;
    while j < t.len() && char_is_ws(t[j])
        invariant
            j <= t@.len(),
            forall|k: int| 0 <= k < j ==> is_ws(#[trigger] t@[k]),
        decreases t@.len() - j,
    {
        j = j + 1;
    }
    let mut r: Vec<char> = Vec::new();
    let mut i: usize = j;
    while i < t.len()
        invariant
            j <= i <= t@.len(),
            r@ == t@.subrange(j as int, i as int),
        decreases t@.len() - i,
    {
        r.push(t[i]);
        i = i + 1;
        assert(r@ =~= t@.subrange(j as int, i as int));
    }
    proof {
        lemma_trim_start_ws_head(t@, j as int);
        assert(t@.subrange(j as int, t@.len() as int) =~= t@.skip(j as int));
    }
    r
}

// ─── lines ───────────────────────────────────────────────────────────────────

/// the pieces of `s` between `'\n'` characters (one more piece than there are
/// newlines; a trailing newline yields a final empty piece).
pub open spec fn split_lines(s: Seq<char>) -> Seq<Seq<char>>
    decreases s.len(),
{
    if s.len() == 0 {
        seq![Seq::<char>::empty()]
    } else {
        let p = split_lines(s.drop_last());
        if s.last() == '\n' {
            p.push(Seq::<char>::empty())
        } else {
            p.update(p.len() - 1, p.last().push(s.last()))
        }
    }
}

/// every piece followed by a newline, concatenated.
pub open spec fn join_terminated(ls: Seq<Seq<char>>) -> Seq<char>
    decreases ls.len(),
{
    if ls.len() == 0 {
        Seq::<char>::empty()
    } else {
        join_terminated(ls.drop_last()) + ls.last() + seq!['\n']
    }
}

/// the pieces joined with `'\n'` between consecutive pieces.
pub open spec fn join_lines(ls: Seq<Seq<char>>) -> Seq<char> {
    if ls.len() == 0 {
        Seq::<char>::empty()
    } else {
        join_terminated(ls.drop_last()) + ls.last()
    }
}

/// canonical source text: every line stripped of trailing whitespace, then the
/// whole text stripped of surrounding whitespace.
///
/// the pieces between newlines lose their trailing whitespace, so a `'\r'`
/// before a newline (a CRLF line end) disappears with it, and a final newline
/// disappears with the outer trim: the text is the same as
/// `raw.replace("\r\n", "\n").lines().map(str::trim_end).collect::<Vec<_>>().join("\n").trim()`.
pub open spec fn canonical_text(raw: Seq<char>) -> Seq<char> {
    trim(join_lines(split_lines(raw).map_values(|l: Seq<char>| trim_end(l))))
}

proof fn lemma_split_lines_nonempty(s: Seq<char>)
    ensures
        split_lines(s).len() >= 1,
    decreases s.len(),
{
    if s.len() > 0 {
        lemma_split_lines_nonempty(s.drop_last());
    }
}

/// normalizes source text before hashing to reduce platform-specific diffs.
pub fn canonicalize_raw(raw: &str) -> (r: String)
    ensures
        r@ == canonical_text(raw@),
{
    let chars = chars_of(raw);
    let n = chars.len();
    let mut out: Vec<char> = Vec::new();
    let mut cur: Vec<char> = Vec::new();
    let ghost mut done: Seq<Seq<char>> = Seq::empty();
    let mut i: usize = 0;
    proof {
        assert(chars@.take(0) =~= Seq::<char>::empty());
        assert(split_lines(chars@.take(0)) =~= done.push(cur@));
    }
    while i < n
        invariant
            n == chars@.len(),
            chars@ == raw@,
            i <= n,
            split_lines(chars@.take(i as int)) == done.push(cur@),
            out@ == join_terminated(done.map_values(|l: Seq<char>| trim_end(l))),
        decreases n - i,
    {
        let c = chars[i];
        proof {
            assert(chars@.take(i as int + 1).drop_last() =~= chars@.take(i as int));
            assert(chars@.take(i as int + 1).last() == c);
        }
        if c == '\n' {
            let t = trim_end_chars(cur.as_slice());
            let mut k: usize = 0;
            let ghost out0 = out@;
            while k < t.len()
                invariant
                    k <= t@.len(),
                    out@ == out0 + t@.take(k as int),
                decreases t@.len() - k,
            {
                out.push(t[k]);
                k = k + 1;
                assert(out@ =~= out0 + t@.take(k as int));
            }
            out.push('\n');
            proof {
                assert(t@.take(t@.len() as int) =~= t@);
                let f = |l: Seq<char>| trim_end(l);
                let nd = done.push(cur@);
                assert(nd.map_values(f).drop_last() =~= done.map_values(f));
                assert(nd.map_values(f).last() == trim_end(cur@));
                done = nd;
            }
            cur = Vec::new();
            proof {
                assert(split_lines(chars@.take(i as int + 1)) =~= done.push(cur@));
            }
        } else {
            let ghost cur0 = cur@;
            cur.push(c);
            proof {
                let p = split_lines(chars@.take(i as int));
                assert(p.last() == cur0) by {
                    assert(p =~= done.push(cur0));
                }
                assert(split_lines(chars@.take(i as int + 1)) =~= done.push(cur@));
            }
        }
        i = i + 1;
    }
    let t = trim_end_chars(cur.as_slice());
    let mut k: usize = 0;
    let ghost out0 = out@;
    while k < t.len()
        invariant
            k <= t@.len(),
            out@ == out0 + t@.take(k as int),
        decreases t@.len() - k,
    {
        out.push(t[k]);
        k = k + 1;
        assert(out@ =~= out0 + t@.take(k as int));
    }
    proof {
        assert(t@.take(t@.len() as int) =~= t@);
        assert(chars@.take(n as int) =~= chars@);
        let f = |l: Seq<char>| trim_end(l);
        let all = done.push(cur@);
        assert(all.map_values(f).drop_last() =~= done.map_values(f));
        assert(out@ == join_lines(split_lines(raw@).map_values(f)));
    }
    let trimmed = trim_chars(out.as_slice());
    string_from_chars(trimmed.as_slice())
}

/// `s` with every line end written as CRLF (`"\r\n"`) instead of LF.
pub open spec fn to_crlf(s: Seq<char>) -> Seq<char>
    decreases s.len(),
{
    if s.len() == 0 {
        s
    } else if s.last() == '\n' {
        to_crlf(s.drop_last()) + seq!['\r', '\n']
    } else {
        to_crlf(s.drop_last()).push(s.last())
    }
}

/// the pieces with a `'\r'` appended to each but the last.
pub open spec fn with_cr(ls: Seq<Seq<char>>) -> Seq<Seq<char>> {
    ls.map(|i: int, l: Seq<char>| if i < ls.len() - 1 { l.push('\r') } else { l })
}

proof fn lemma_split_lines_crlf(s: Seq<char>)
    ensures
        split_lines(to_crlf(s)) == with_cr(split_lines(s)),
    decreases s.len(),
{
    lemma_split_lines_nonempty(s);
    if s.len() == 0 {
        assert(with_cr(split_lines(s)) =~= seq![Seq::<char>::empty()]);
    } else {
        let p = s.drop_last();
        lemma_split_lines_crlf(p);
        lemma_split_lines_nonempty(p);
        let sp = split_lines(p);
        let t = to_crlf(p);
        if s.last() == '\n' {
            let tc = t.push('\r');
            assert(to_crlf(s) =~= tc.push('\n'));
            assert(tc.drop_last() =~= t);
            assert(to_crlf(s).drop_last() =~= tc);
            assert(split_lines(tc) == split_lines(t).update(split_lines(t).len() - 1, split_lines(t).last().push('\r')));
            assert(split_lines(to_crlf(s)) == split_lines(tc).push(Seq::<char>::empty()));
            assert(split_lines(to_crlf(s)) =~= with_cr(split_lines(s)));
        } else {
            assert(to_crlf(s).drop_last() =~= t);
            assert(split_lines(to_crlf(s)) =~= with_cr(split_lines(s)));
        }
    }
}

proof fn lemma_trim_end_cr(l: Seq<char>)
    ensures
        trim_end(l.push('\r')) == trim_end(l),
{
    assert(is_ws('\r'));
    assert(l.push('\r').drop_last() =~= l);
}

/// writing line ends as CRLF instead of LF leaves the canonical text, and so
/// the source hash, unchanged.
pub proof fn law_canonical_text_ignores_crlf(s: Seq<char>)
    ensures
        canonical_text(to_crlf(s)) == canonical_text(s),
{
    lemma_split_lines_crlf(s);
    let ls = split_lines(s);
    let f = |l: Seq<char>| trim_end(l);
    let a = with_cr(ls).map_values(f);
    let b = ls.map_values(f);
    assert forall|i: int| 0 <= i < ls.len() implies #[trigger] a[i] == b[i] by {
        if i < ls.len() - 1 {
            lemma_trim_end_cr(ls[i]);
        }
    }
    assert(a =~= b);
}

/// every newline of `x` after the first character follows another newline
/// or a character that is not whitespace: no line but the last ends in
/// whitespace.
pub open spec fn lines_end_clean(x: Seq<char>) -> bool {
    forall|i: int| 0 < i < x.len() && #[trigger] x[i] == '\n' ==> x[i - 1] == '\n' || !is_ws(x[i - 1])
}

proof fn lemma_lines_end_clean_take(x: Seq<char>, k: int)
    requires
        lines_end_clean(x),
        0 <= k <= x.len(),
    ensures
        lines_end_clean(x.take(k)),
{
    let y = x.take(k);
    assert forall|i: int| 0 < i < y.len() && #[trigger] y[i] == '\n' implies y[i - 1] == '\n' || !is_ws(y[i - 1]) by {
        assert(y[i] == x[i] && y[i - 1] == x[i - 1]);
    }
}

proof fn lemma_lines_end_clean_skip(x: Seq<char>, m: int)
    requires
        lines_end_clean(x),
        0 <= m <= x.len(),
    ensures
        lines_end_clean(x.skip(m)),
{
    let y = x.skip(m);
    assert forall|i: int| 0 < i < y.len() && #[trigger] y[i] == '\n' implies y[i - 1] == '\n' || !is_ws(y[i - 1]) by {
        assert(y[i] == x[i + m] && y[i - 1] == x[i + m - 1]);
    }
}

/// `trim_start` keeps a suffix, which starts with a non-whitespace character
/// when it is not empty, and is not empty when the text ends in one.
proof fn lemma_trim_start_is_suffix(s: Seq<char>)
    ensures
        trim_start(s) == s.skip(s.len() - trim_start(s).len()),
        trim_start(s).len() <= s.len(),
        trim_start(s).len() == 0 || !is_ws(trim_start(s)[0]),
        s.len() > 0 && !is_ws(s.last()) ==> trim_start(s).len() > 0,
    decreases s.len(),
{
    if s.len() > 0 && is_ws(s[0]) {
        lemma_trim_start_is_suffix(s.drop_first());
        assert(s.drop_first().skip(s.drop_first().len() - trim_start(s).len()) =~= s.skip(s.len() - trim_start(s).len()));
        if !is_ws(s.last()) {
            assert(s.len() > 1);
            assert(s.drop_first().last() == s.last());
        }
    } else {
        assert(s.skip(0) =~= s);
    }
}

/// no line of `split_lines(s)` holds a newline.
proof fn lemma_split_lines_no_newline(s: Seq<char>)
    ensures
        forall|i: int| 0 <= i < split_lines(s).len() ==> !(#[trigger] split_lines(s)[i]).contains('\n'),
    decreases s.len(),
{
    lemma_split_lines_nonempty(s);
    if s.len() > 0 {
        let p = split_lines(s.drop_last());
        lemma_split_lines_no_newline(s.drop_last());
        lemma_split_lines_nonempty(s.drop_last());
        if s.last() != '\n' {
            let l = p.last().push(s.last());
            assert(!l.contains('\n')) by {
                if l.contains('\n') {
                    let k = choose|k: int| 0 <= k < l.len() && l[k] == '\n';
                    if k < p.last().len() {
                        assert(p.last()[k] == '\n');
                        assert(p[p.len() - 1].contains('\n'));
                    }
                }
            }
            assert forall|i: int| 0 <= i < split_lines(s).len() implies !(#[trigger] split_lines(s)[i]).contains('\n') by {
                if i < p.len() - 1 {
                    assert(split_lines(s)[i] == p[i]);
                }
            }
        } else {
            assert forall|i: int| 0 <= i < split_lines(s).len() implies !(#[trigger] split_lines(s)[i]).contains('\n') by {
                if i < p.len() {
                    assert(split_lines(s)[i] == p[i]);
                } else {
                    assert(split_lines(s)[i] =~= Seq::<char>::empty());
                }
            }
        }
    }
}

/// joining the lines of a text gives the text back.
proof fn lemma_join_split_lines(s: Seq<char>)
    ensures
        join_lines(split_lines(s)) == s,
    decreases s.len(),
{
    lemma_split_lines_nonempty(s);
    if s.len() == 0 {
        assert(join_lines(split_lines(s)) =~= s);
    } else {
        let p = s.drop_last();
        let sp = split_lines(p);
        lemma_join_split_lines(p);
        lemma_split_lines_nonempty(p);
        if s.last() == '\n' {
            let ls = sp.push(Seq::<char>::empty());
            assert(ls.drop_last() =~= sp);
            assert(join_terminated(sp) == join_terminated(sp.drop_last()) + sp.last() + seq!['\n']);
            assert(join_lines(ls) =~= s);
        } else {
            let ls = sp.update(sp.len() - 1, sp.last().push(s.last()));
            assert(ls.drop_last() =~= sp.drop_last());
            assert(join_lines(ls) =~= join_lines(sp).push(s.last()));
            assert(p.push(s.last()) =~= s);
        }
    }
}

/// pieces that hold no newline and end in no whitespace join into a text
/// whose lines end clean, and the terminated join ends in a newline.
proof fn lemma_join_terminated_clean(ls: Seq<Seq<char>>)
    requires
        forall|i: int| 0 <= i < ls.len() ==> trim_end(#[trigger] ls[i]) == ls[i] && !ls[i].contains('\n'),
    ensures
        lines_end_clean(join_terminated(ls)),
        join_terminated(ls).len() == 0 || join_terminated(ls).last() == '\n',
    decreases ls.len(),
{
    if ls.len() > 0 {
        let a = join_terminated(ls.drop_last());
        let l = ls.last();
        assert(trim_end(ls[ls.len() - 1]) == ls[ls.len() - 1]);
        lemma_join_terminated_clean(ls.drop_last());
        lemma_trim_end_is_prefix(l);
        let x = a + l + seq!['\n'];
        assert(x == join_terminated(ls));
        assert forall|i: int| 0 < i < x.len() && #[trigger] x[i] == '\n' implies x[i - 1] == '\n' || !is_ws(x[i - 1]) by {
            if i < a.len() {
                assert(x[i] == a[i] && x[i - 1] == a[i - 1]);
            } else if i < a.len() + l.len() {
                assert(x[i] == l[i - a.len()]);
                assert(l.contains('\n'));
            } else if l.len() > 0 {
                assert(x[i - 1] == l.last());
            } else {
                assert(x[i - 1] == a.last());
            }
        }
    }
}

/// a text whose lines end clean, and which does not end in whitespace, has
/// lines that `trim_end` leaves as they are.
proof fn lemma_clean_lines_fixed(x: Seq<char>)
    requires
        lines_end_clean(x),
    ensures
        forall|i: int| 0 <= i < split_lines(x).len() - 1 ==> trim_end(#[trigger] split_lines(x)[i]) == split_lines(x)[i],
        x.len() == 0 || x.last() == '\n' || !is_ws(x.last()) ==> trim_end(split_lines(x).last()) == split_lines(x).last(),
    decreases x.len(),
{
    lemma_split_lines_nonempty(x);
    if x.len() > 0 {
        let p = x.drop_last();
        let sp = split_lines(p);
        lemma_lines_end_clean_take(x, x.len() - 1);
        assert(x.take(x.len() - 1) =~= p);
        lemma_clean_lines_fixed(p);
        lemma_split_lines_nonempty(p);
        if x.last() == '\n' {
            if p.len() > 0 {
                assert(x[x.len() - 1] == '\n');
                assert(x[x.len() - 2] == p.last());
            }
            assert forall|i: int| 0 <= i < split_lines(x).len() - 1 implies trim_end(#[trigger] split_lines(x)[i]) == split_lines(x)[i] by {
                assert(split_lines(x)[i] == sp[i]);
            }
            assert(trim_end(Seq::<char>::empty()) == Seq::<char>::empty());
        } else {
            assert forall|i: int| 0 <= i < split_lines(x).len() - 1 implies trim_end(#[trigger] split_lines(x)[i]) == split_lines(x)[i] by {
                assert(split_lines(x)[i] == sp[i]);
            }
            let l = sp.last().push(x.last());
            assert(split_lines(x).last() == l);
            assert(l.last() == x.last());
        }
    }
}

/// canonical text neither starts nor ends with whitespace, and none of its
/// lines ends with whitespace.
pub proof fn law_canonical_text_clean(s: Seq<char>)
    ensures
        canonical_text(s).len() == 0 || (!is_ws(canonical_text(s)[0]) && !is_ws(canonical_text(s).last())),
        forall|i: int|
            0 <= i < split_lines(canonical_text(s)).len() ==> trim_end(#[trigger] split_lines(canonical_text(s))[i])
                == split_lines(canonical_text(s))[i],
{
    let f = |l: Seq<char>| trim_end(l);
    let sl = split_lines(s);
    let ls = sl.map_values(f);
    lemma_split_lines_no_newline(s);
    assert forall|i: int| 0 <= i < ls.len() implies trim_end(#[trigger] ls[i]) == ls[i] && !ls[i].contains('\n') by {
        lemma_trim_end_is_prefix(sl[i]);
        let t = ls[i];
        assert(t == trim_end(sl[i]));
        assert(trim_end(t) == t);
        if t.contains('\n') {
            let k = choose|k: int| 0 <= k < t.len() && t[k] == '\n';
            assert(sl[i][k] == '\n');
            assert(sl[i].contains('\n'));
        }
    }
    lemma_split_lines_nonempty(s);
    assert(ls.drop_last().len() + 1 == ls.len());
    assert forall|i: int| 0 <= i < ls.drop_last().len() implies trim_end(#[trigger] ls.drop_last()[i]) == ls.drop_last()[i]
        && !ls.drop_last()[i].contains('\n') by {
        assert(ls.drop_last()[i] == ls[i]);
    }
    lemma_join_terminated_clean(ls.drop_last());
    let a = join_terminated(ls.drop_last());
    let l = ls.last();
    assert(trim_end(ls[ls.len() - 1]) == ls[ls.len() - 1] && !ls[ls.len() - 1].contains('\n'));
    let j = join_lines(ls);
    assert(j == a + l);
    assert forall|i: int| 0 < i < j.len() && #[trigger] j[i] == '\n' implies j[i - 1] == '\n' || !is_ws(j[i - 1]) by {
        if i < a.len() {
            assert(j[i] == a[i] && j[i - 1] == a[i - 1]);
        } else {
            assert(j[i] == l[i - a.len()]);
            assert(l.contains('\n'));
        }
    }
    lemma_trim_end_is_prefix(j);
    let y = trim_end(j);
    lemma_lines_end_clean_take(j, y.len() as int);
    lemma_trim_start_is_suffix(y);
    let x = trim_start(y);
    lemma_lines_end_clean_skip(y, y.len() - x.len());
    assert(x == canonical_text(s));
    if x.len() > 0 {
        assert(x.last() == y.last());
    }
    lemma_clean_lines_fixed(x);
    lemma_split_lines_nonempty(x);
}

/// canonical text is its own canonical text: canonicalising twice gives
/// the same text as canonicalising once.
pub proof fn law_canonical_text_idempotent(s: Seq<char>)
    ensures
        canonical_text(canonical_text(s)) == canonical_text(s),
{
    law_canonical_text_clean(s);
    let f = |l: Seq<char>| trim_end(l);
    let x = canonical_text(s);
    lemma_split_lines_nonempty(x);
    let sx = split_lines(x);
    assert(sx.map_values(f) =~= sx);
    lemma_join_split_lines(x);
    assert(trim_end(x) == x);
    assert(trim_start(x) == x);
}

/// `s` with every CRLF line end written as LF.
pub open spec fn crlf_to_lf(s: Seq<char>) -> Seq<char>
    decreases s.len(),
{
    if s.len() >= 2 && s.last() == '\n' && s[s.len() - 2] == '\r' {
        crlf_to_lf(s.take(s.len() - 2)).push('\n')
    } else if s.len() == 0 {
        s
    } else {
        crlf_to_lf(s.drop_last()).push(s.last())
    }
}

/// the pieces with a final `'\r'` removed from each but the last.
pub open spec fn without_cr(ls: Seq<Seq<char>>) -> Seq<Seq<char>> {
    ls.map(|i: int, l: Seq<char>| if i < ls.len() - 1 && l.len() > 0 && l.last() == '\r' { l.drop_last() } else { l })
}

/// the last line of a non-empty text is empty or ends with its last character.
proof fn lemma_split_lines_last(s: Seq<char>)
    requires
        s.len() > 0,
    ensures
        split_lines(s).last().len() == 0 || split_lines(s).last().last() == s.last(),
        s.last() == '\n' ==> split_lines(s).last().len() == 0,
{
    lemma_split_lines_nonempty(s.drop_last());
}

proof fn lemma_split_lines_lf(s: Seq<char>)
    ensures
        split_lines(crlf_to_lf(s)) == without_cr(split_lines(s)),
    decreases s.len(),
{
    lemma_split_lines_nonempty(s);
    if s.len() >= 2 && s.last() == '\n' && s[s.len() - 2] == '\r' {
        let q = s.take(s.len() - 2);
        let qc = s.drop_last();
        assert(qc.drop_last() =~= q);
        assert(qc.last() == '\r');
        lemma_split_lines_lf(q);
        lemma_split_lines_nonempty(q);
        lemma_split_lines_nonempty(qc);
        let sq = split_lines(q);
        let t = crlf_to_lf(q);
        assert(crlf_to_lf(s) == t.push('\n'));
        assert(t.push('\n').drop_last() =~= t);
        assert(split_lines(crlf_to_lf(s)) == split_lines(t).push(Seq::<char>::empty()));
        assert(split_lines(qc) == sq.update(sq.len() - 1, sq.last().push('\r')));
        assert(split_lines(s) == split_lines(qc).push(Seq::<char>::empty()));
        assert(sq.last().push('\r').drop_last() =~= sq.last());
        assert(split_lines(crlf_to_lf(s)) =~= without_cr(split_lines(s)));
    } else if s.len() > 0 {
        let p = s.drop_last();
        lemma_split_lines_lf(p);
        lemma_split_lines_nonempty(p);
        let sp = split_lines(p);
        let t = crlf_to_lf(p);
        assert(crlf_to_lf(s) == t.push(s.last()));
        assert(t.push(s.last()).drop_last() =~= t);
        if p.len() > 0 {
            lemma_split_lines_last(p);
        }
        if s.last() == '\n' {
            assert(p.len() == 0 || p.last() != '\r');
            assert(split_lines(crlf_to_lf(s)) =~= without_cr(split_lines(s)));
        } else {
            assert(split_lines(crlf_to_lf(s)) =~= without_cr(split_lines(s)));
        }
    } else {
        assert(without_cr(split_lines(s)) =~= split_lines(s));
    }
}

proof fn lemma_crlf_to_lf_single(h: Seq<char>)
    requires
        h.len() == 1,
    ensures
        crlf_to_lf(h) == h,
{
    assert(h.drop_last() =~= Seq::<char>::empty());
    assert(crlf_to_lf(Seq::<char>::empty()) == Seq::<char>::empty());
    assert(crlf_to_lf(h) == crlf_to_lf(h.drop_last()).push(h.last()));
    assert(crlf_to_lf(h) =~= h);
}

/// rewriting line ends splits over a concatenation that does not cut a CRLF
/// in two.
proof fn lemma_crlf_to_lf_concat(a: Seq<char>, b: Seq<char>)
    requires
        !(a.len() > 0 && a.last() == '\r' && b.len() > 0 && b[0] == '\n'),
    ensures
        crlf_to_lf(a + b) == crlf_to_lf(a) + crlf_to_lf(b),
    decreases b.len(),
{
    let s = a + b;
    if b.len() == 0 {
        assert(s =~= a);
        assert(crlf_to_lf(a) + crlf_to_lf(b) =~= crlf_to_lf(a));
    } else if b.len() == 1 {
        assert(s.drop_last() =~= a);
        assert(s.last() == b[0]);
        if s.len() >= 2 {
            assert(s[s.len() - 2] == a.last());
        }
        lemma_crlf_to_lf_single(b);
        assert(crlf_to_lf(s) =~= crlf_to_lf(a) + crlf_to_lf(b));
    } else if b.last() == '\n' && b[b.len() - 2] == '\r' {
        let bt = b.take(b.len() - 2);
        assert(s.take(s.len() - 2) =~= a + bt);
        assert(s[s.len() - 2] == '\r');
        if bt.len() > 0 {
            assert(bt[0] == b[0]);
        }
        lemma_crlf_to_lf_concat(a, bt);
        assert(crlf_to_lf(s) =~= crlf_to_lf(a) + crlf_to_lf(b));
    } else {
        let bd = b.drop_last();
        assert(s.drop_last() =~= a + bd);
        assert(s[s.len() - 2] == b[b.len() - 2]);
        assert(bd[0] == b[0]);
        lemma_crlf_to_lf_concat(a, bd);
        assert(crlf_to_lf(s) =~= crlf_to_lf(a) + crlf_to_lf(b));
    }
}

/// `crlf_to_lf` is what replacing every `"\r\n"` by `"\n"` gives.
proof fn lemma_crlf_to_lf_is_replace(s: Seq<char>)
    ensures
        replace_all(s, seq!['\r', '\n'], seq!['\n']) == crlf_to_lf(s),
    decreases s.len(),
{
    let p = seq!['\r', '\n'];
    if s.len() == 1 {
        lemma_crlf_to_lf_single(s);
    } else if s.len() >= 2 {
        if s.take(2) == p {
            let t = s.skip(2);
            assert(s =~= p + t);
            assert(p.drop_last() =~= seq!['\r']);
            assert(crlf_to_lf(p) == crlf_to_lf(p.take(0)).push('\n'));
            assert(crlf_to_lf(p) =~= seq!['\n']);
            lemma_crlf_to_lf_concat(p, t);
            lemma_crlf_to_lf_is_replace(t);
        } else {
            let h = seq![s[0]];
            let t = s.skip(1);
            assert(s =~= h + t);
            assert(!(s[0] == '\r' && s[1] == '\n')) by {
                if s[0] == '\r' && s[1] == '\n' {
                    assert(s.take(2) =~= p);
                }
            }
            lemma_crlf_to_lf_single(h);
            lemma_crlf_to_lf_concat(h, t);
            lemma_crlf_to_lf_is_replace(t);
        }
    }
}

/// writing CRLF line ends as LF (replacing every `"\r\n"` by `"\n"`)
/// leaves the canonical text, and so the source hash, unchanged.
pub proof fn law_canonical_text_ignores_crlf_replaced(s: Seq<char>)
    ensures
        canonical_text(replace_all(s, seq!['\r', '\n'], seq!['\n'])) == canonical_text(s),
{
    lemma_crlf_to_lf_is_replace(s);
    law_canonical_text_ignores_lf_for_crlf(s);
}

/// writing CRLF line ends as LF leaves the canonical text, and so the source
/// hash, unchanged.
pub proof fn law_canonical_text_ignores_lf_for_crlf(s: Seq<char>)
    ensures
        canonical_text(crlf_to_lf(s)) == canonical_text(s),
{
    lemma_split_lines_lf(s);
    let ls = split_lines(s);
    let f = |l: Seq<char>| trim_end(l);
    let a = without_cr(ls).map_values(f);
    let b = ls.map_values(f);
    assert forall|i: int| 0 <= i < ls.len() implies #[trigger] a[i] == b[i] by {
        if i < ls.len() - 1 && ls[i].len() > 0 && ls[i].last() == '\r' {
            assert(ls[i].drop_last().push('\r') =~= ls[i]);
            lemma_trim_end_cr(ls[i].drop_last());
        }
    }
    assert(a =~= b);
}

// ─── decimal and hex rendering ───────────────────────────────────────────────

/// the decimal digit character for `d < 10`.
pub open spec fn digit_char(d: nat) -> char {
    ((d + 48) as u32) as char
}

/// the decimal rendering of `n`, without leading zeros (`"0"` for zero).
pub open spec fn decimal(n: nat) -> Seq<char>
    decreases n,
{
    if n < 10 {
        seq![digit_char(n)]
    } else {
        decimal(n / 10).push(digit_char(n % 10))
    }
}

/// renders `n` in decimal.
pub fn decimal_string(n: usize) -> (r: String)
    ensures
        r@ == decimal(n as nat),
{
    let mut digits: Vec<char> = Vec::new();
    let mut m: usize = n;
    // digits collected least significant first
    while m >= 10
        invariant
            decimal(n as nat) == decimal(m as nat) + digits@.reverse(),
        decreases m,
    {
        let d = m % 10;
        let c = ((d as u32) + 48) as u8 as char;
        proof {
            assert(c == digit_char(d as nat));
            assert(decimal(m as nat) == decimal((m / 10) as nat).push(c));
            assert(digits@.push(c).reverse() =~= seq![c] + digits@.reverse());
        }
        digits.push(c);
        m = m / 10;
    }
    let c0 = ((m as u32) + 48) as u8 as char;
    proof {
        assert(c0 == digit_char(m as nat));
        assert(digits@.push(c0).reverse() =~= seq![c0] + digits@.reverse());
    }
    digits.push(c0);
    let mut out: Vec<char> = Vec::new();
    let mut i: usize = digits.len();
    while i > 0
        invariant
            i <= digits@.len(),
            out@ == digits@.reverse().take((digits@.len() - i) as int),
        decreases i,
    {
        i = i - 1;
        out.push(digits[i]);
        assert(out@ =~= digits@.reverse().take((digits@.len() - i) as int));
    }
    assert(out@ =~= digits@.reverse());
    string_from_chars(out.as_slice())
}

/// the lowercase hex digit for `d < 16`.
pub open spec fn hex_char(d: nat) -> char {
    if d < 10 {
        ((d + 48) as u32) as char
    } else {
        ((d + 87) as u32) as char
    }
}

/// lowercase hex rendering of `bytes`, two digits per byte.
pub open spec fn hex_lower(bytes: Seq<u8>) -> Seq<char>
    decreases bytes.len(),
{
    if bytes.len() == 0 {
        Seq::<char>::empty()
    } else {
        hex_lower(bytes.drop_last()) + seq![
            hex_char((bytes.last() / 16) as nat),
            hex_char((bytes.last() % 16) as nat),
        ]
    }
}

fn hex_digit(d: u8) -> (c: char)
    requires
        d < 16,
    ensures
        c == hex_char(d as nat),
{
    if d < 10 {
        (d + 48) as char
    } else {
        (d + 87) as char
    }
}

/// renders `bytes` as lowercase hex, two digits per byte.
pub fn to_hex_lower(bytes: &[u8]) -> (r: String)
    ensures
        r@ == hex_lower(bytes@),
{
    let mut out: Vec<char> = Vec::new();
    let mut i: usize = 0;
    while i < bytes.len()
        invariant
            i <= bytes@.len(),
            out@ == hex_lower(bytes@.take(i as int)),
        decreases bytes@.len() - i,
    {
        let b = bytes[i];
        let hi = hex_digit(b / 16);
        let lo = hex_digit(b % 16);
        out.push(hi);
        out.push(lo);
        proof {
            assert(bytes@.take(i as int + 1).drop_last() =~= bytes@.take(i as int));
        }
        i = i + 1;
        assert(out@ =~= hex_lower(bytes@.take(i as int)));
    }
    assert(bytes@.take(bytes@.len() as int) =~= bytes@);
    string_from_chars(out.as_slice())
}

} // verus!

verus! {

// ─── lexicographic order ─────────────────────────────────────────────────────

/// `a` sorts strictly before `b`: character by character by code point, a
/// proper prefix first. This is the order of `String`'s `Ord`, since UTF-8
/// preserves code point order.
pub open spec fn text_lt(a: Seq<char>, b: Seq<char>) -> bool
    decreases a.len(),
{
    if a.len() == 0 {
        b.len() > 0
    } else if b.len() == 0 {
        false
    } else if a[0] == b[0] {
        text_lt(a.drop_first(), b.drop_first())
    } else {
        (a[0] as u32) < (b[0] as u32)
    }
}

/// different characters have different code points.
pub proof fn lemma_char_code_injective(a: char, b: char)
    requires
        a != b,
    ensures
        (a as u32) != (b as u32),
{
    vstd::utf8::char_u32_cast(a, a as u32);
    vstd::utf8::char_u32_cast(b, b as u32);
}

/// `text_lt` is irreflexive.
pub proof fn lemma_text_lt_irreflexive(a: Seq<char>)
    ensures
        !text_lt(a, a),
    decreases a.len(),
{
    if a.len() > 0 {
        lemma_text_lt_irreflexive(a.drop_first());
    }
}

/// `text_lt` is transitive.
pub proof fn lemma_text_lt_transitive(a: Seq<char>, b: Seq<char>, c: Seq<char>)
    requires
        text_lt(a, b),
        text_lt(b, c),
    ensures
        text_lt(a, c),
    decreases a.len(),
{
    if a.len() > 0 && b.len() > 0 && c.len() > 0 {
        if a[0] == b[0] && b[0] == c[0] {
            lemma_text_lt_transitive(a.drop_first(), b.drop_first(), c.drop_first());
        }
    }
}

/// two different texts are ordered one way or the other.
pub proof fn lemma_text_lt_total(a: Seq<char>, b: Seq<char>)
    requires
        a != b,
    ensures
        text_lt(a, b) || text_lt(b, a),
    decreases a.len(),
{
    if a.len() > 0 && b.len() > 0 {
        if a[0] == b[0] {
            if a.drop_first() == b.drop_first() {
                assert(a =~= seq![a[0]] + a.drop_first());
                assert(b =~= seq![b[0]] + b.drop_first());
            }
            lemma_text_lt_total(a.drop_first(), b.drop_first());
        } else {
            lemma_char_code_injective(a[0], b[0]);
        }
    } else if a.len() == 0 && b.len() == 0 {
        assert(a =~= b);
    }
}

/// the relative order of two texts.
pub enum TextOrder {
    Less,
    Equal,
    Greater,
}

/// compares two texts in `text_lt` order.
pub fn compare_text(a: &str, b: &str) -> (r: TextOrder)
    ensures
        r is Less <==> text_lt(a@, b@),
        r is Equal <==> a@ == b@,
        r is Greater <==> text_lt(b@, a@),
{
    let x = chars_of(a);
    let y = chars_of(b);
    let mut i: usize = 0;
    while i < x.len() && i < y.len() && x[i] == y[i]
        invariant
            i <= x@.len(),
            i <= y@.len(),
            x@ == a@,
            y@ == b@,
            x@.take(i as int) == y@.take(i as int),
        decreases x@.len() - i,
    {
        proof {
            assert(x@.take(i as int + 1) =~= x@.take(i as int).push(x@[i as int]));
            assert(y@.take(i as int + 1) =~= y@.take(i as int).push(y@[i as int]));
        }
        i = i + 1;
    }
    proof {
        lemma_text_lt_skip(x@, y@, i as int);
        lemma_text_lt_skip(y@, x@, i as int);
        lemma_text_lt_irreflexive(x@);
    }
    if i < x.len() && i < y.len() {
        proof {
            assert(x@[i as int] != y@[i as int]);
            assert(x@ != y@);
            lemma_char_code_injective(x@[i as int], y@[i as int]);
            assert(x@.skip(i as int)[0] == x@[i as int]);
            assert(y@.skip(i as int)[0] == y@[i as int]);
        }
        if (x[i] as u32) < (y[i] as u32) {
            TextOrder::Less
        } else {
            TextOrder::Greater
        }
    } else if x.len() == y.len() {
        proof {
            assert(x@ =~= x@.take(i as int));
            assert(y@ =~= y@.take(i as int));
        }
        TextOrder::Equal
    } else if i == x.len() {
        proof {
            assert(x@.skip(i as int).len() == 0);
            assert(y@.len() > x@.len());
            assert(x@ != y@);
        }
        TextOrder::Less
    } else {
        proof {
            assert(y@.skip(i as int).len() == 0);
            assert(x@ != y@);
        }
        TextOrder::Greater
    }
}

/// order is decided after a common prefix of length `i`.
proof fn lemma_text_lt_skip(a: Seq<char>, b: Seq<char>, i: int)
    requires
        0 <= i <= a.len(),
        i <= b.len(),
        a.take(i) == b.take(i),
    ensures
        text_lt(a, b) == text_lt(a.skip(i), b.skip(i)),
    decreases i,
{
    if i > 0 {
        assert(a[0] == a.take(i)[0]);
        assert(b[0] == b.take(i)[0]);
        assert(a.drop_first().take(i - 1) =~= a.take(i).drop_first());
        assert(b.drop_first().take(i - 1) =~= b.take(i).drop_first());
        assert(a.drop_first().skip(i - 1) =~= a.skip(i));
        assert(b.drop_first().skip(i - 1) =~= b.skip(i));
        lemma_text_lt_skip(a.drop_first(), b.drop_first(), i - 1);
    } else {
        assert(a.skip(0) =~= a);
        assert(b.skip(0) =~= b);
    }
}


// ─── templates and joining ───────────────────────────────────────────────────

/// `s` with every occurrence of the non-empty pattern `p` replaced by `w`,
/// scanning left to right without overlap (as `str::replace` does).
pub open spec fn replace_all(s: Seq<char>, p: Seq<char>, w: Seq<char>) -> Seq<char>
    decreases s.len(),
{
    if p.len() == 0 || s.len() < p.len() {
        s
    } else if s.take(p.len() as int) == p {
        w + replace_all(s.skip(p.len() as int), p, w)
    } else {
        seq![s[0]] + replace_all(s.skip(1), p, w)
    }
}

/// whether `pat` occurs in `cs` at position `i`.
fn occurs_at(cs: &Vec<char>, i: usize, pat: &Vec<char>) -> (r: bool)
    requires
        i + pat@.len() <= cs@.len(),
    ensures
        r == (cs@.skip(i as int).take(pat@.len() as int) == pat@),
{
    let n = cs.len();
    let mut k: usize = 0;
    while k < pat.len()
        invariant
            k <= pat@.len(),
            n == cs@.len(),
            i + pat@.len() <= cs@.len(),
            forall|j: int| 0 <= j < k ==> cs@[i + j] == pat@[j],
        decreases pat@.len() - k,
    {
        if cs[i + k] != pat[k] {
            proof {
                assert(cs@.skip(i as int).take(pat@.len() as int)[k as int] != pat@[k as int]);
            }
            return false;
        }
        k = k + 1;
    }
    assert(cs@.skip(i as int).take(pat@.len() as int) =~= pat@);
    true
}

/// `str::replace`: replaces every occurrence of the non-empty `pat` in `s` by `with`.
pub fn replace_text(s: &str, pat: &str, with: &str) -> (r: String)
    requires
        pat@.len() > 0,
    ensures
        r@ == replace_all(s@, pat@, with@),
{
    let cs = chars_of(s);
    let ps = chars_of(pat);
    let ws = chars_of(with);
    let mut out: Vec<char> = Vec::new();
    let mut i: usize = 0;
    proof {
        assert(cs@.skip(0) =~= cs@);
    }
    while i < cs.len()
        invariant
            i <= cs@.len(),
            cs@ == s@,
            ps@ == pat@,
            ws@ == with@,
            ps@.len() > 0,
            out@ + replace_all(cs@.skip(i as int), ps@, ws@) == replace_all(s@, pat@, with@),
        decreases cs@.len() - i,
    {
        let ghost rest = cs@.skip(i as int);
        if ps.len() <= cs.len() - i && occurs_at(&cs, i, &ps) {
            let ghost prev = out@;
            let mut k: usize = 0;
            while k < ws.len()
                invariant
                    k <= ws@.len(),
                    out@ == prev + ws@.take(k as int),
                decreases ws@.len() - k,
            {
                out.push(ws[k]);
                proof {
                    assert(ws@.take(k as int + 1) =~= ws@.take(k as int).push(ws@[k as int]));
                }
                k = k + 1;
            }
            proof {
                assert(ws@.take(ws@.len() as int) =~= ws@);
                assert(rest.skip(ps@.len() as int) =~= cs@.skip(i + ps@.len()));
                assert(prev + ws@ + replace_all(rest.skip(ps@.len() as int), ps@, ws@) =~= prev + (ws@ + replace_all(
                    rest.skip(ps@.len() as int),
                    ps@,
                    ws@,
                )));
            }
            i = i + ps.len();
        } else {
            let ghost prev = out@;
            out.push(cs[i]);
            proof {
                assert(rest.skip(1) =~= cs@.skip(i + 1));
                assert(rest[0] == cs@[i as int]);
                if rest.len() < ps@.len() {
                    assert(rest.skip(1).len() < ps@.len());
                    assert(rest =~= seq![rest[0]] + rest.skip(1));
                }
                assert(prev.push(cs@[i as int]) + replace_all(rest.skip(1), ps@, ws@) =~= prev + (seq![rest[0]]
                    + replace_all(rest.skip(1), ps@, ws@)));
            }
            i = i + 1;
        }
    }
    proof {
        assert(cs@.skip(i as int) =~= Seq::<char>::empty());
        assert(out@ + Seq::<char>::empty() =~= out@);
    }
    string_from_chars(out.as_slice())
}

/// the parts joined by single spaces.
pub open spec fn join_spaced(parts: Seq<Seq<char>>) -> Seq<char>
    decreases parts.len(),
{
    if parts.len() == 0 {
        Seq::<char>::empty()
    } else if parts.len() == 1 {
        parts[0]
    } else {
        join_spaced(parts.drop_last()).push(' ') + parts.last()
    }
}

/// `[String]::join(" ")`: the parts joined by single spaces.
pub fn join_with_spaces(parts: &Vec<String>) -> (r: String)
    ensures
        r@ == join_spaced(parts@.map_values(|s: String| s@)),
{
    let ghost ps = parts@.map_values(|s: String| s@);
    let mut out = String::new();
    let mut i: usize = 0;
    proof {
        assert(ps.take(0) =~= Seq::<Seq<char>>::empty());
    }
    while i < parts.len()
        invariant
            i <= parts@.len(),
            ps == parts@.map_values(|s: String| s@),
            out@ == join_spaced(ps.take(i as int)),
        decreases parts@.len() - i,
    {
        proof {
            assert(ps.take(i as int + 1).drop_last() =~= ps.take(i as int));
            assert(ps.take(i as int + 1).last() == parts@[i as int]@);
        }
        if i > 0 {
            push_char(&mut out, ' ');
        } else {
            proof {
                assert(ps.take(1)[0] == parts@[0]@);
            }
        }
        push_str(&mut out, parts[i].as_str());
        i = i + 1;
    }
    proof {
        assert(ps.take(parts@.len() as int) =~= ps);
    }
    out
}

/// the ASCII upper-case form of a character (other characters unchanged).
pub open spec fn ascii_upper(c: char) -> char {
    if 'a' <= c && c <= 'z' {
        ((c as u32) - 32) as char
    } else {
        c
    }
}

/// the text with its first character made ASCII upper case.
pub open spec fn capitalized(s: Seq<char>) -> Seq<char> {
    if s.len() == 0 {
        s
    } else {
        seq![ascii_upper(s[0])] + s.skip(1)
    }
}

/// `char::to_ascii_uppercase`: maps `a`..`z` to `A`..`Z` and keeps every other character.
pub fn to_ascii_upper(c: char) -> (r: char)
    ensures
        r == ascii_upper(c),
{
    if 'a' <= c && c <= 'z' {
        let b: u8 = (c as u8) - 32;
        b as char
    } else {
        c
    }
}

/// the text with its first character made ASCII upper case.
pub fn capitalize(s: &str) -> (r: String)
    ensures
        r@ == capitalized(s@),
{
    let cs = chars_of(s);
    if cs.len() == 0 {
        return owned(s);
    }
    let mut out: Vec<char> = Vec::new();
    out.push(to_ascii_upper(cs[0]));
    let mut i: usize = 1;
    while i < cs.len()
        invariant
            1 <= i <= cs@.len(),
            cs@ == s@,
            out@ == seq![ascii_upper(cs@[0])] + cs@.subrange(1, i as int),
        decreases cs@.len() - i,
    {
        out.push(cs[i]);
        proof {
            assert(cs@.subrange(1, i as int + 1) =~= cs@.subrange(1, i as int).push(cs@[i as int]));
        }
        i = i + 1;
    }
    proof {
        assert(cs@.subrange(1, cs@.len() as int) =~= s@.skip(1));
    }
    string_from_chars(out.as_slice())
}

} // verus!
