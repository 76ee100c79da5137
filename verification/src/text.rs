//! Text operations on page content, each stated over `Seq<char>`.

use vstd::prelude::*;

verus! {

// ---------------------------------------------------------------------------
// Conversions between strings and characters
// ---------------------------------------------------------------------------

/// The characters of `s`, in order (std `str::chars`, collected).
#[verifier::external_body]
pub(crate) fn chars_of(s: &str) -> (r: Vec<char>)
    ensures
        r@ == s@,
{
    s.chars().collect()
}

/// The string made of the characters of `v`, in order
/// (std `FromIterator<char>` for `String`).
#[verifier::external_body]
pub(crate) fn string_of(v: &[char]) -> (r: String)
    ensures
        r@ == v@,
{
    v.iter().collect()
}

/// The characters `v[from..to]` as a new vector.
pub fn chars_between(v: &Vec<char>, from: usize, to: usize) -> (r: Vec<char>)
    requires
        from <= to <= v.len(),
    ensures
        r@ == v@.subrange(from as int, to as int),
{
    let mut r: Vec<char> = Vec::new();
    let mut k: usize = from;
    while k < to
        invariant
            from <= k <= to <= v.len(),
            r@ == v@.subrange(from as int, k as int),
        decreases to - k,
    {
        r.push(v[k]);
        k += 1;
    }
    r
}

/// `Option<String>` taken by its view.
pub open spec fn opt_view(o: Option<String>) -> Option<Seq<char>> {
    match o {
        Some(s) => Some(s@),
        None => None,
    }
}

/// A vector of strings taken by the views of its items.
pub open spec fn seq_view(v: Seq<String>) -> Seq<Seq<char>> {
    v.map_values(|s: String| s@)
}

/// An optional vector of strings taken by its views.
pub open spec fn opt_seq_view(o: Option<Vec<String>>) -> Option<Seq<Seq<char>>> {
    match o {
        Some(v) => Some(seq_view(v@)),
        None => None,
    }
}

// ---------------------------------------------------------------------------
// Whitespace and trimming
// ---------------------------------------------------------------------------

/// The Unicode `White_Space` property, which `char::is_whitespace` and
/// `str::trim` go by.
pub open spec fn is_white(c: char) -> bool {
    let u = c as u32;
    (0x9 <= u && u <= 0xd) || u == 0x20 || u == 0x85 || u == 0xa0 || u == 0x1680 || (0x2000 <= u
        && u <= 0x200a) || u == 0x2028 || u == 0x2029 || u == 0x202f || u == 0x205f || u == 0x3000
}

/// Whether `c` is white space in the sense of `is_white`.
pub fn is_whitespace(c: char) -> (r: bool)
    ensures
        r == is_white(c),
{
    let u = c as u32;
    (0x9 <= u && u <= 0xd) || u == 0x20 || u == 0x85 || u == 0xa0 || u == 0x1680 || (0x2000 <= u
        && u <= 0x200a) || u == 0x2028 || u == 0x2029 || u == 0x202f || u == 0x205f || u == 0x3000
}

/// `s` without its leading white space.
pub open spec fn trim_start(s: Seq<char>) -> Seq<char>
    decreases s.len(),
{
    if s.len() > 0 && is_white(s[0]) {
        trim_start(s.drop_first())
    } else {
        s
    }
}

/// `s` without its trailing white space.
pub open spec fn trim_end(s: Seq<char>) -> Seq<char>
    decreases s.len(),
{
    if s.len() > 0 && is_white(s.last()) {
        trim_end(s.drop_last())
    } else {
        s
    }
}

/// `s` without leading and trailing white space, as `str::trim` gives it.
pub open spec fn trimmed(s: Seq<char>) -> Seq<char> {
    trim_end(trim_start(s))
}

/// A text is blank when nothing but white space is in it.
pub open spec fn is_blank(s: Seq<char>) -> bool {
    trimmed(s).len() == 0
}

proof fn lemma_trim_start_from(s: Seq<char>, i: int)
    requires
        0 <= i <= s.len(),
        forall|k: int| 0 <= k < i ==> is_white(#[trigger] s[k]),
        i == s.len() || !is_white(s[i]),
    ensures
        trim_start(s) == s.skip(i),
    decreases i,
{
    if i == 0 {
        assert(s.skip(0) =~= s);
    } else {
        let t = s.drop_first();
        assert forall|k: int| 0 <= k < i - 1 implies is_white(#[trigger] t[k]) by {
            assert(t[k] == s[k + 1]);
        }
        assert(s[0] == s[0]);
        lemma_trim_start_from(t, i - 1);
        assert(t.skip(i - 1) =~= s.skip(i));
    }
}

proof fn lemma_trim_end_to(s: Seq<char>, j: int)
    requires
        0 <= j <= s.len(),
        forall|k: int| j <= k < s.len() ==> is_white(#[trigger] s[k]),
        j == 0 || !is_white(s[j - 1]),
    ensures
        trim_end(s) == s.take(j),
    decreases s.len() - j,
{
    if j == s.len() {
        assert(s.take(j) =~= s);
    } else {
        let t = s.drop_last();
        assert(is_white(s[s.len() - 1]));
        assert forall|k: int| j <= k < t.len() implies is_white(#[trigger] t[k]) by {
            assert(t[k] == s[k]);
        }
        lemma_trim_end_to(t, j);
        assert(t.take(j) =~= s.take(j));
    }
}

/// `s` with leading and trailing white space removed (`str::trim`).
pub fn trim(s: &str) -> (r: String)
    ensures
        r@ == trimmed(s@),
{
    let v = chars_of(s);
    let r = trim_chars(&v);
    string_of(r.as_slice())
}

/// `trim` on a vector of characters.
pub fn trim_chars(v: &Vec<char>) -> (r: Vec<char>)
    ensures
        r@ == trimmed(v@),
{
    let n = v.len();
    let mut i: usize = 0;
    while i < n && is_whitespace(v[i])
        invariant
            0 <= i <= n,
            n == v@.len(),
            forall|k: int| 0 <= k < i ==> is_white(#[trigger] v@[k]),
        decreases n - i,
    {
        i += 1;
    }
    proof {
        lemma_trim_start_from(v@, i as int);
    }
    let ghost t = v@.skip(i as int);
    let mut j: usize = n;
    while j > i && is_whitespace(v[j - 1])
        invariant
            i <= j <= n,
            n == v@.len(),
            t == v@.skip(i as int),
            forall|k: int| j <= k < n ==> is_white(#[trigger] v@[k]),
        decreases j - i,
    {
        j -= 1;
    }
    proof {
        assert forall|k: int| (j - i) <= k < t.len() implies is_white(#[trigger] t[k]) by {
            assert(t[k] == v@[k + i]);
        }
        if j > i {
            assert(t[j - i - 1] == v@[j - 1]);
        }
        lemma_trim_end_to(t, j - i);
        assert(t.take(j - i) =~= v@.subrange(i as int, j as int));
    }
    chars_between(v, i, j)
}

/// Whether `s` is blank.
pub fn blank(s: &str) -> (r: bool)
    ensures
        r == is_blank(s@),
{
    let t = trim(s);
    t.as_str().unicode_len() == 0
}


// ---------------------------------------------------------------------------
// Substrings
// ---------------------------------------------------------------------------

/// Whether `pat` occurs in `s` at position `i`.
pub open spec fn occurs_at(s: Seq<char>, pat: Seq<char>, i: int) -> bool {
    0 <= i && i + pat.len() <= s.len() && s.subrange(i, i + pat.len()) == pat
}

/// Whether `pat` occurs in `s` (`str::contains` with a string pattern).
pub open spec fn has_sub(s: Seq<char>, pat: Seq<char>) -> bool {
    exists|i: int| occurs_at(s, pat, i)
}

/// Whether `pat` occurs in `v` at position `i`.
pub fn occurs_at_exec(v: &Vec<char>, pat: &Vec<char>, i: usize) -> (r: bool)
    ensures
        r == occurs_at(v@, pat@, i as int),
{
    if i > v.len() || pat.len() > v.len() - i {
        return false;
    }
    let mut k: usize = 0;
    while k < pat.len()
        invariant
            i + pat.len() <= v.len(),
            0 <= k <= pat@.len(),
            forall|m: int| 0 <= m < k ==> v@[i + m] == pat@[m],
        decreases pat.len() - k,
    {
        if v[i + k] != pat[k] {
            assert(v@.subrange(i as int, i + pat@.len())[k as int] != pat@[k as int]);
            return false;
        }
        k += 1;
    }
    assert(v@.subrange(i as int, i + pat@.len()) =~= pat@);
    true
}

/// Whether `pat` occurs in `v`.
pub fn contains_chars(v: &Vec<char>, pat: &Vec<char>) -> (r: bool)
    ensures
        r == has_sub(v@, pat@),
{
    if pat.len() > v.len() {
        return false;
    }
    let last = v.len() - pat.len();
    let mut i: usize = 0;
    while i <= last
        invariant
            last == v@.len() - pat@.len(),
            0 <= i <= last + 1,
            forall|k: int| 0 <= k < i ==> !occurs_at(v@, pat@, k),
        decreases last + 1 - i,
    {
        if occurs_at_exec(v, pat, i) {
            return true;
        }
        if i == last {
            assert forall|k: int| !occurs_at(v@, pat@, k) by {
                if 0 <= k <= i {
                }
            }
            return false;
        }
        i += 1;
    }
    assert forall|k: int| !occurs_at(v@, pat@, k) by {
        if 0 <= k < i {
        }
    }
    false
}

/// Whether `pat` occurs in `s` (`str::contains`).
pub fn contains(s: &str, pat: &str) -> (r: bool)
    ensures
        r == has_sub(s@, pat@),
{
    let v = chars_of(s);
    let p = chars_of(pat);
    contains_chars(&v, &p)
}

/// Whether `c` occurs in `s` (`str::contains` with a `char` pattern).
pub fn contains_char(s: &str, c: char) -> (r: bool)
    ensures
        r == s@.contains(c),
{
    let v = chars_of(s);
    let mut i: usize = 0;
    while i < v.len()
        invariant
            v@ == s@,
            0 <= i <= v@.len(),
            forall|k: int| 0 <= k < i ==> v@[k] != c,
        decreases v.len() - i,
    {
        if v[i] == c {
            return true;
        }
        i += 1;
    }
    false
}

/// Whether `s` ends with `c` (`str::ends_with` with a `char` pattern).
pub open spec fn ends_with_char(s: Seq<char>, c: char) -> bool {
    s.len() > 0 && s.last() == c
}

/// Whether `s` ends with `c`.
pub fn ends_with(s: &str, c: char) -> (r: bool)
    ensures
        r == ends_with_char(s@, c),
{
    let v = chars_of(s);
    v.len() > 0 && v[v.len() - 1] == c
}

/// `s` with every trailing `c` removed (`str::trim_end_matches` with a `char`).
pub open spec fn strip_trailing(s: Seq<char>, c: char) -> Seq<char>
    decreases s.len(),
{
    if s.len() > 0 && s.last() == c {
        strip_trailing(s.drop_last(), c)
    } else {
        s
    }
}

/// `s` with every trailing `c` removed.
pub fn trim_end_matches(s: &str, c: char) -> (r: String)
    ensures
        r@ == strip_trailing(s@, c),
{
    let v = chars_of(s);
    let mut j: usize = v.len();
    assert(v@.take(v@.len() as int) =~= v@);
    while j > 0 && v[j - 1] == c
        invariant
            0 <= j <= v@.len(),
            strip_trailing(v@, c) == strip_trailing(v@.take(j as int), c),
        decreases j,
    {
        assert(v@.take(j as int).drop_last() =~= v@.take(j - 1));
        j -= 1;
    }
    assert(v@.take(v@.len() as int) =~= v@);
    let r = chars_between(&v, 0, j);
    assert(r@ =~= v@.take(j as int));
    string_of(r.as_slice())
}

/// `s` with every non-overlapping occurrence of `pat`, from the left,
/// replaced by `rep` (`str::replace`, for a pattern that is not empty).
pub open spec fn replaced(s: Seq<char>, pat: Seq<char>, rep: Seq<char>) -> Seq<char>
    decreases s.len(),
{
    if pat.len() == 0 || s.len() < pat.len() {
        s
    } else if s.take(pat.len() as int) == pat {
        rep + replaced(s.skip(pat.len() as int), pat, rep)
    } else {
        seq![s[0]] + replaced(s.drop_first(), pat, rep)
    }
}

/// Appends the characters of `q` to `out`.
pub fn append_chars(out: &mut Vec<char>, q: &Vec<char>)
    ensures
        final(out)@ == old(out)@ + q@,
{
    let ghost before = out@;
    let mut k: usize = 0;
    while k < q.len()
        invariant
            0 <= k <= q@.len(),
            out@ == before + q@.take(k as int),
        decreases q@.len() - k,
    {
        out.push(q[k]);
        assert(q@.take(k + 1) =~= q@.take(k as int).push(q@[k as int]));
        k += 1;
    }
    assert(q@.take(q@.len() as int) =~= q@);
}

/// `s` with every occurrence of `pat` replaced by `rep`.
pub fn replace(s: &str, pat: &str, rep: &str) -> (r: String)
    requires
        pat@.len() > 0,
    ensures
        r@ == replaced(s@, pat@, rep@),
{
    let v = chars_of(s);
    let p = chars_of(pat);
    let q = chars_of(rep);
    let n = v.len();
    let plen = p.len();
    let mut out: Vec<char> = Vec::new();
    let mut i: usize = 0;
    assert(v@.skip(0) =~= v@);
    while i < n
        invariant
            n == v@.len(),
            plen == p@.len(),
            plen > 0,
            0 <= i <= n,
            replaced(v@, p@, q@) == out@ + replaced(v@.skip(i as int), p@, q@),
        decreases n - i,
    {
        let ghost rest = v@.skip(i as int);
        if occurs_at_exec(&v, &p, i) {
            assert(rest.take(plen as int) =~= v@.subrange(i as int, i + plen));
            assert(rest.skip(plen as int) =~= v@.skip(i + plen));
            append_chars(&mut out, &q);
            i += plen;
        } else {
            if plen <= n - i {
                assert(rest.take(plen as int) =~= v@.subrange(i as int, i + plen));
            }
            assert(rest.drop_first() =~= v@.skip(i + 1));
            out.push(v[i]);
            i += 1;
        }
    }
    assert(v@.skip(n as int) =~= Seq::<char>::empty());
    assert(out@ + Seq::<char>::empty() =~= out@);
    string_of(out.as_slice())
}


/// Whether `a` and `b` hold the same characters (`==` on strings).
pub fn same(a: &str, b: &str) -> (r: bool)
    ensures
        r == (a@ == b@),
{
    let x = chars_of(a);
    let y = chars_of(b);
    if x.len() != y.len() {
        return false;
    }
    let mut i: usize = 0;
    while i < x.len()
        invariant
            x@ == a@,
            y@ == b@,
            x@.len() == y@.len(),
            0 <= i <= x@.len(),
            forall|k: int| 0 <= k < i ==> x@[k] == y@[k],
        decreases x.len() - i,
    {
        if x[i] != y[i] {
            assert(a@[i as int] != b@[i as int]);
            return false;
        }
        i += 1;
    }
    assert(x@ =~= y@);
    true
}

// ---------------------------------------------------------------------------
// Joining and choosing text nodes
// ---------------------------------------------------------------------------

/// The texts of `parts` one after the other (`collect::<String>()`).
pub open spec fn joined(parts: Seq<Seq<char>>) -> Seq<char>
    decreases parts.len(),
{
    if parts.len() == 0 {
        Seq::empty()
    } else {
        joined(parts.drop_last()) + parts.last()
    }
}

/// The texts of `parts` one after the other.
pub fn join_texts(parts: &Vec<String>) -> (r: String)
    ensures
        r@ == joined(seq_view(parts@)),
{
    let mut out: Vec<char> = Vec::new();
    let mut i: usize = 0;
    while i < parts.len()
        invariant
            0 <= i <= parts@.len(),
            out@ == joined(seq_view(parts@).take(i as int)),
        decreases parts.len() - i,
    {
        let c = chars_of(parts[i].as_str());
        append_chars(&mut out, &c);
        assert(seq_view(parts@).take(i + 1).drop_last() =~= seq_view(parts@).take(i as int));
        i += 1;
    }
    assert(seq_view(parts@).take(parts@.len() as int) =~= seq_view(parts@));
    string_of(out.as_slice())
}

/// The first of `texts` that is not blank.
pub open spec fn first_nonblank(texts: Seq<Seq<char>>) -> Option<Seq<char>>
    decreases texts.len(),
{
    if texts.len() == 0 {
        None
    } else if !is_blank(texts[0]) {
        Some(texts[0])
    } else {
        first_nonblank(texts.drop_first())
    }
}

/// What `first_nonblank` finds is not blank.
pub proof fn lemma_first_nonblank_not_blank(texts: Seq<Seq<char>>)
    ensures
        first_nonblank(texts) matches Some(t) ==> !is_blank(t),
    decreases texts.len(),
{
    if texts.len() > 0 && is_blank(texts[0]) {
        lemma_first_nonblank_not_blank(texts.drop_first());
    }
}

/// The first text that is not blank, trimmed; empty when there is none
/// (`filter(|t| !t.trim().is_empty()).next().unwrap_or("").trim()`).
pub open spec fn first_text(texts: Seq<Seq<char>>) -> Seq<char> {
    match first_nonblank(texts) {
        Some(t) => trimmed(t),
        None => Seq::empty(),
    }
}

/// The first text that is not blank, trimmed, or `None`.
pub fn first_nonblank_trimmed(texts: &Vec<String>) -> (r: Option<String>)
    ensures
        opt_view(r) == (match first_nonblank(seq_view(texts@)) {
            Some(t) => Some(trimmed(t)),
            None => None,
        }),
{
    let ghost all = seq_view(texts@);
    let mut i: usize = 0;
    assert(all.skip(0) =~= all);
    while i < texts.len()
        invariant
            0 <= i <= texts@.len(),
            all == seq_view(texts@),
            first_nonblank(all) == first_nonblank(all.skip(i as int)),
        decreases texts.len() - i,
    {
        let t = trim(texts[i].as_str());
        assert(all.skip(i as int)[0] == texts@[i as int]@);
        if t.as_str().unicode_len() > 0 {
            return Some(t);
        }
        assert(all.skip(i as int).drop_first() =~= all.skip(i + 1));
        i += 1;
    }
    None
}

/// The first text that is not blank, trimmed; empty when there is none.
pub fn first_text_of(texts: &Vec<String>) -> (r: String)
    ensures
        r@ == first_text(seq_view(texts@)),
{
    match first_nonblank_trimmed(texts) {
        Some(t) => t,
        None => String::new(),
    }
}

// ---------------------------------------------------------------------------
// Splitting
// ---------------------------------------------------------------------------

/// The pieces of `s` between occurrences of `c` (`str::split` with a `char`).
pub open spec fn split_char(s: Seq<char>, c: char) -> Seq<Seq<char>>
    decreases s.len(),
{
    if s.len() == 0 {
        seq![Seq::empty()]
    } else {
        let init = split_char(s.drop_last(), c);
        if s.last() == c {
            init.push(Seq::empty())
        } else {
            init.update(init.len() - 1, init.last().push(s.last()))
        }
    }
}

proof fn lemma_split_char_nonempty(s: Seq<char>, c: char)
    ensures
        split_char(s, c).len() >= 1,
    decreases s.len(),
{
    if s.len() > 0 {
        lemma_split_char_nonempty(s.drop_last(), c);
    }
}

/// The pieces of `s` between occurrences of `c`.
pub fn split_on(s: &str, c: char) -> (r: Vec<String>)
    ensures
        seq_view(r@) == split_char(s@, c),
{
    let v = chars_of(s);
    let mut pieces: Vec<String> = Vec::new();
    let mut cur: Vec<char> = Vec::new();
    let mut i: usize = 0;
    assert(v@.take(0) =~= Seq::<char>::empty());
    assert(seq_view(pieces@) + seq![cur@] =~= seq![Seq::<char>::empty()]);
    while i < v.len()
        invariant
            v@ == s@,
            0 <= i <= v@.len(),
            split_char(v@.take(i as int), c) == seq_view(pieces@) + seq![cur@],
        decreases v.len() - i,
    {
        assert(v@.take(i + 1).drop_last() =~= v@.take(i as int));
        let ghost p_old = seq_view(pieces@);
        let ghost c_old = cur@;
        if v[i] == c {
            let piece = string_of(cur.as_slice());
            pieces.push(piece);
            cur = Vec::new();
            assert(seq_view(pieces@) =~= p_old.push(c_old));
            assert(seq_view(pieces@) + seq![cur@] =~= (p_old + seq![c_old]).push(
                Seq::<char>::empty(),
            ));
        } else {
            cur.push(v[i]);
            assert(seq_view(pieces@) + seq![cur@] =~= (p_old + seq![c_old]).update(
                p_old.len() as int,
                c_old.push(v@[i as int]),
            ));
        }
        i += 1;
    }
    assert(v@.take(v@.len() as int) =~= v@);
    let last = string_of(cur.as_slice());
    pieces.push(last);
    assert(seq_view(pieces@) =~= seq_view(pieces@.drop_last()) + seq![last@]);
    pieces
}


/// `pieces` trimmed, without those left empty
/// (`map(|p| p.trim()).filter(|p| !p.is_empty())`).
pub open spec fn nonempty_trimmed(pieces: Seq<Seq<char>>) -> Seq<Seq<char>>
    decreases pieces.len(),
{
    if pieces.len() == 0 {
        Seq::empty()
    } else {
        let init = nonempty_trimmed(pieces.drop_last());
        if trimmed(pieces.last()).len() > 0 {
            init.push(trimmed(pieces.last()))
        } else {
            init
        }
    }
}

/// `pieces` trimmed, without those left empty.
pub fn keep_nonempty_trimmed(pieces: &Vec<String>) -> (r: Vec<String>)
    ensures
        seq_view(r@) == nonempty_trimmed(seq_view(pieces@)),
{
    let ghost all = seq_view(pieces@);
    let mut out: Vec<String> = Vec::new();
    let mut i: usize = 0;
    while i < pieces.len()
        invariant
            all == seq_view(pieces@),
            0 <= i <= pieces@.len(),
            seq_view(out@) == nonempty_trimmed(all.take(i as int)),
        decreases pieces.len() - i,
    {
        assert(all.take(i + 1).drop_last() =~= all.take(i as int));
        assert(all.take(i + 1).last() == pieces@[i as int]@);
        let t = trim(pieces[i].as_str());
        if t.as_str().unicode_len() > 0 {
            let ghost before = seq_view(out@);
            out.push(t);
            assert(seq_view(out@) =~= before.push(t@));
        }
        i += 1;
    }
    assert(all.take(pieces@.len() as int) =~= all);
    out
}

/// The text before the first occurrence of `p`, and the text between the
/// first and the second occurrence (or up to the end); the second is `None`
/// when `p` does not occur. These are the first two items that `str::split`
/// yields. With an empty `p` the first item is empty and the second is the
/// first character (empty for an empty `s`).
pub open spec fn split_first(s: Seq<char>, p: Seq<char>) -> Seq<char> {
    if p.len() == 0 {
        Seq::empty()
    } else {
        match first_occurrence(s, p) {
            Some(i) => s.take(i),
            None => s,
        }
    }
}

/// The second item of `str::split`; see `split_first`.
pub open spec fn split_second(s: Seq<char>, p: Seq<char>) -> Option<Seq<char>> {
    if p.len() == 0 {
        if s.len() == 0 {
            Some(Seq::empty())
        } else {
            Some(s.take(1))
        }
    } else {
        match first_occurrence(s, p) {
            Some(i) => {
                let rest = s.skip(i + p.len());
                Some(split_first(rest, p))
            },
            None => None,
        }
    }
}

/// The position of the leftmost occurrence of `p` in `s`.
#[verifier::opaque]
pub open spec fn first_occurrence(s: Seq<char>, p: Seq<char>) -> Option<int> {
    if has_sub(s, p) {
        Some(choose|i: int| occurs_at(s, p, i) && forall|k: int| 0 <= k < i ==> !occurs_at(s, p, k))
    } else {
        None
    }
}

proof fn lemma_first_occurrence(s: Seq<char>, p: Seq<char>, i: int)
    requires
        occurs_at(s, p, i),
        forall|k: int| 0 <= k < i ==> !occurs_at(s, p, k),
    ensures
        first_occurrence(s, p) == Some(i),
{
    reveal(first_occurrence);
    assert(has_sub(s, p));
    let j = choose|j: int| occurs_at(s, p, j) && forall|k: int| 0 <= k < j ==> !occurs_at(s, p, k);
    if j < i {
        assert(!occurs_at(s, p, j));
    } else if j > i {
        assert(!occurs_at(s, p, i));
    }
}

proof fn lemma_no_occurrence(s: Seq<char>, p: Seq<char>)
    requires
        forall|k: int| !occurs_at(s, p, k),
    ensures
        first_occurrence(s, p) is None,
{
    reveal(first_occurrence);
}

/// Finds the leftmost occurrence of `p` in `v`.
pub fn find(v: &Vec<char>, p: &Vec<char>) -> (r: Option<usize>)
    ensures
        r matches Some(i) ==> occurs_at(v@, p@, i as int) && first_occurrence(v@, p@) == Some(
            i as int,
        ),
        r is None ==> first_occurrence(v@, p@) is None,
{
    if p.len() > v.len() {
        assert forall|k: int| !occurs_at(v@, p@, k) by {}
        proof {
            lemma_no_occurrence(v@, p@);
        }
        return None;
    }
    let last = v.len() - p.len();
    let mut i: usize = 0;
    while i <= last
        invariant
            last == v@.len() - p@.len(),
            0 <= i <= last,
            forall|k: int| 0 <= k < i ==> !occurs_at(v@, p@, k),
        decreases last - i,
    {
        if occurs_at_exec(v, p, i) {
            proof {
                lemma_first_occurrence(v@, p@, i as int);
            }
            return Some(i);
        }
        if i == last {
            assert forall|k: int| !occurs_at(v@, p@, k) by {
                if 0 <= k <= last {
                }
            }
            proof {
                lemma_no_occurrence(v@, p@);
            }
            return None;
        }
        i += 1;
    }
    None
}

/// The first item that `s.split(p)` yields.
pub fn split_first_piece(s: &str, p: &str) -> (r: String)
    ensures
        r@ == split_first(s@, p@),
{
    let v = chars_of(s);
    let q = chars_of(p);
    if q.len() == 0 {
        return String::new();
    }
    match find(&v, &q) {
        Some(i) => {
            let t = chars_between(&v, 0, i);
            assert(t@ =~= v@.take(i as int));
            string_of(t.as_slice())
        },
        None => string_of(v.as_slice()),
    }
}

/// The second item that `s.split(p)` yields, if there is one.
pub fn split_second_piece(s: &str, p: &str) -> (r: Option<String>)
    ensures
        opt_view(r) == split_second(s@, p@),
{
    let v = chars_of(s);
    let q = chars_of(p);
    if q.len() == 0 {
        if v.len() == 0 {
            return Some(String::new());
        } else {
            let t = chars_between(&v, 0, 1);
            assert(t@ =~= v@.take(1));
            return Some(string_of(t.as_slice()));
        }
    }
    match find(&v, &q) {
        Some(i) => {
            assert(occurs_at(v@, q@, i as int));
            assert(i + q@.len() <= v@.len());
            let vn = v.len();
            let qn = q.len();
            assert(i + qn <= vn);
            let rest = chars_between(&v, i + q.len(), v.len());
            assert(rest@ =~= v@.skip(i + q@.len()));
            let r = match find(&rest, &q) {
                Some(j) => {
                    let t = chars_between(&rest, 0, j);
                    assert(t@ =~= rest@.take(j as int));
                    t
                },
                None => rest,
            };
            Some(string_of(r.as_slice()))
        },
        None => None,
    }
}

// ---------------------------------------------------------------------------
// Digits and numbers
// ---------------------------------------------------------------------------

/// An ASCII decimal digit (`char::is_ascii_digit`).
pub open spec fn is_digit(c: char) -> bool {
    0x30 <= (c as u32) && (c as u32) <= 0x39
}

/// Whether `c` is an ASCII decimal digit.
pub fn is_ascii_digit(c: char) -> (r: bool)
    ensures
        r == is_digit(c),
{
    let u = c as u32;
    0x30 <= u && u <= 0x39
}

/// The ASCII digits of `s`, in order (`chars().filter(is_ascii_digit)`).
pub open spec fn digits_of(s: Seq<char>) -> Seq<char>
    decreases s.len(),
{
    if s.len() == 0 {
        Seq::empty()
    } else if is_digit(s.last()) {
        digits_of(s.drop_last()).push(s.last())
    } else {
        digits_of(s.drop_last())
    }
}

/// The ASCII digits of `s`, in order.
pub fn only_digits(s: &str) -> (r: String)
    ensures
        r@ == digits_of(s@),
{
    let v = chars_of(s);
    let mut out: Vec<char> = Vec::new();
    let mut i: usize = 0;
    while i < v.len()
        invariant
            v@ == s@,
            0 <= i <= v@.len(),
            out@ == digits_of(v@.take(i as int)),
        decreases v.len() - i,
    {
        assert(v@.take(i + 1).drop_last() =~= v@.take(i as int));
        if is_ascii_digit(v[i]) {
            out.push(v[i]);
        }
        i += 1;
    }
    assert(v@.take(v@.len() as int) =~= v@);
    string_of(out.as_slice())
}

/// `s` up to its first ASCII digit (the first item of
/// `split(|c: char| c.is_ascii_digit())`).
pub open spec fn before_digit(s: Seq<char>) -> Seq<char>
    decreases s.len(),
{
    if s.len() == 0 || is_digit(s[0]) {
        Seq::empty()
    } else {
        seq![s[0]] + before_digit(s.drop_first())
    }
}

/// `s` up to its first ASCII digit.
pub fn up_to_digit(s: &str) -> (r: String)
    ensures
        r@ == before_digit(s@),
{
    let v = chars_of(s);
    let mut i: usize = 0;
    assert(v@.skip(0) =~= v@);
    assert(v@.take(0) + before_digit(v@) =~= before_digit(v@));
    while i < v.len() && !is_ascii_digit(v[i])
        invariant
            v@ == s@,
            0 <= i <= v@.len(),
            before_digit(v@) == v@.take(i as int) + before_digit(v@.skip(i as int)),
        decreases v.len() - i,
    {
        assert(v@.skip(i as int).drop_first() =~= v@.skip(i + 1));
        assert(v@.take(i + 1) =~= v@.take(i as int) + seq![v@[i as int]]);
        i += 1;
    }
    let t = chars_between(&v, 0, i);
    assert(t@ =~= v@.take(i as int) + Seq::<char>::empty());
    string_of(t.as_slice())
}

/// Whether every character of `s` is an ASCII digit.
pub open spec fn all_digits(s: Seq<char>) -> bool {
    forall|i: int| 0 <= i < s.len() ==> is_digit(#[trigger] s[i])
}

/// The value of a string of decimal digits.
pub open spec fn decimal(s: Seq<char>) -> int
    decreases s.len(),
{
    if s.len() == 0 {
        0
    } else {
        decimal(s.drop_last()) * 10 + ((s.last() as u32) - 0x30)
    }
}

/// The digits of an unsigned number, after an optional leading `+`.
pub open spec fn unsigned_digits(s: Seq<char>) -> Seq<char> {
    if s.len() > 0 && s[0] == '+' {
        s.drop_first()
    } else {
        s
    }
}

/// What `str::parse` gives for an unsigned integer type whose largest value
/// is `max`: an optional `+`, then at least one ASCII digit and nothing else,
/// and a value no larger than `max`.
pub open spec fn unsigned_value(s: Seq<char>, max: int) -> Option<int> {
    let d = unsigned_digits(s);
    if d.len() > 0 && all_digits(d) && decimal(d) <= max {
        Some(decimal(d))
    } else {
        None
    }
}

proof fn lemma_decimal_prefix(s: Seq<char>, k: int)
    requires
        all_digits(s),
        0 <= k <= s.len(),
    ensures
        0 <= decimal(s.take(k)) <= decimal(s),
    decreases s.len() - k,
{
    if k == s.len() {
        assert(s.take(k) =~= s);
        lemma_decimal_nonneg(s);
    } else {
        let t = s.drop_last();
        assert(all_digits(t)) by {
            assert forall|i: int| 0 <= i < t.len() implies is_digit(#[trigger] t[i]) by {
                assert(t[i] == s[i]);
            }
        }
        lemma_decimal_prefix(t, k);
        assert(t.take(k) =~= s.take(k));
        lemma_decimal_nonneg(t);
        assert(is_digit(s[s.len() - 1]));
    }
}

proof fn lemma_decimal_nonneg(s: Seq<char>)
    requires
        all_digits(s),
    ensures
        decimal(s) >= 0,
    decreases s.len(),
{
    if s.len() > 0 {
        let t = s.drop_last();
        assert forall|i: int| 0 <= i < t.len() implies is_digit(#[trigger] t[i]) by {
            assert(t[i] == s[i]);
        }
        lemma_decimal_nonneg(t);
        assert(is_digit(s[s.len() - 1]));
    }
}

/// A value that `unsigned_value` gives lies between zero and `max`.
pub proof fn lemma_unsigned_value_in_range(s: Seq<char>, max: int)
    ensures
        unsigned_value(s, max) matches Some(v) ==> 0 <= v <= max,
{
    let d = unsigned_digits(s);
    if d.len() > 0 && all_digits(d) {
        lemma_decimal_nonneg(d);
    }
}

/// Parses `s` as an unsigned integer no larger than `max`.
pub fn parse_unsigned(s: &str, max: u64) -> (r: Option<u64>)
    requires
        max >= 9,
    ensures
        r is Some <==> unsigned_value(s@, max as int) is Some,
        r matches Some(x) ==> unsigned_value(s@, max as int) == Some(x as int),
{
    let v = chars_of(s);
    let start: usize = if v.len() > 0 && v[0] == '+' {
        1
    } else {
        0
    };
    let ghost d = unsigned_digits(s@);
    assert(d =~= v@.skip(start as int));
    if start >= v.len() {
        return None;
    }
    let mut val: u64 = 0;
    let mut i: usize = start;
    assert(d.take(0) =~= Seq::<char>::empty());
    while i < v.len()
        invariant
            v@ == s@,
            max >= 9,
            d == unsigned_digits(s@),
            d == v@.skip(start as int),
            start <= i <= v@.len(),
            all_digits(d.take(i - start)),
            val as int == decimal(d.take(i - start)),
            val <= max,
        decreases v.len() - i,
    {
        let c = v[i];
        let ghost k = i - start;
        assert(d[k] == c);
        if !is_ascii_digit(c) {
            assert(!is_digit(d[k]));
            assert(!all_digits(d));
            return None;
        }
        let dv = (c as u32 - 0x30) as u64;
        assert(d.take(k + 1).drop_last() =~= d.take(k));
        assert(all_digits(d.take(k + 1))) by {
            assert forall|m: int| 0 <= m < k + 1 implies is_digit(#[trigger] d.take(k + 1)[m]) by {
                if m < k {
                    assert(d.take(k + 1)[m] == d.take(k)[m]);
                }
            }
        }
        if val > (max - dv) / 10 {
            proof {
                assert(val * 10 + dv > max) by (nonlinear_arith)
                    requires
                        val > (max - dv) / 10,
                        dv <= 9,
                        max >= 9,
                ;
                assert(decimal(d.take(k + 1)) == val * 10 + dv);
                if all_digits(d) {
                    lemma_decimal_prefix(d, k + 1);
                    assert(decimal(d) > max);
                }
                assert(unsigned_value(s@, max as int) is None);
            }
            return None;
        }
        assert(val * 10 + dv <= max) by (nonlinear_arith)
            requires
                val <= (max - dv) / 10,
                dv <= 9,
                max >= 9,
        ;
        val = val * 10 + dv;
        i += 1;
    }
    assert(d.take(d.len() as int) =~= d);
    Some(val)
}

/// `str::parse::<u32>`, as an option.
pub fn parse_u32(s: &str) -> (r: Option<u32>)
    ensures
        r is Some <==> unsigned_value(s@, u32::MAX as int) is Some,
        r matches Some(x) ==> unsigned_value(s@, u32::MAX as int) == Some(x as int),
{
    match parse_unsigned(s, 0xffff_ffff) {
        Some(x) => Some(x as u32),
        None => None,
    }
}

/// `str::parse::<u8>`, as an option.
pub fn parse_u8(s: &str) -> (r: Option<u8>)
    ensures
        r is Some <==> unsigned_value(s@, u8::MAX as int) is Some,
        r matches Some(x) ==> unsigned_value(s@, u8::MAX as int) == Some(x as int),
{
    match parse_unsigned(s, 0xff) {
        Some(x) => Some(x as u8),
        None => None,
    }
}

/// `str::parse::<usize>`, as an option.
pub fn parse_usize(s: &str) -> (r: Option<usize>)
    ensures
        r is Some <==> unsigned_value(s@, usize::MAX as int) is Some,
        r matches Some(x) ==> unsigned_value(s@, usize::MAX as int) == Some(x as int),
{
    match parse_unsigned(s, usize::MAX as u64) {
        Some(x) => Some(x as usize),
        None => None,
    }
}

// ---------------------------------------------------------------------------
// Case
// ---------------------------------------------------------------------------

/// What `str::to_lowercase` returns for `s`: each character mapped by the
/// Unicode `Lowercase` mapping tables of the standard library.
pub uninterp spec fn lowercase(s: Seq<char>) -> Seq<char>;

/// The lowercase form of `s` (std `str::to_lowercase`). The mapping is the
/// standard library's Unicode table; its result is named, not stated.
#[verifier::external_body]
pub(crate) fn to_lowercase(s: &str) -> (r: String)
    ensures
        r@ == lowercase(s@),
{
    s.to_lowercase()
}

} // verus!
