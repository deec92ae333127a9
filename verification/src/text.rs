//! Text as a sequence of characters: the vocabulary the contracts of this crate speak in, and the
//! executable scanners and builders that meet it.

use vstd::prelude::*;

verus! {

/// Trusted: `String::push` appends one character at the end and changes nothing before it.
pub assume_specification[ String::push ](s: &mut String, c: char)
    ensures
        final(s)@ == old(s)@.push(c),
;

/// The characters with Unicode's `White_Space` property.
pub open spec fn is_space(c: char) -> bool {
    ||| '\u{9}' <= c <= '\u{d}'
    ||| c == '\u{20}'
    ||| c == '\u{85}'
    ||| c == '\u{a0}'
    ||| c == '\u{1680}'
    ||| '\u{2000}' <= c <= '\u{200a}'
    ||| c == '\u{2028}'
    ||| c == '\u{2029}'
    ||| c == '\u{202f}'
    ||| c == '\u{205f}'
    ||| c == '\u{3000}'
}

/// Whether `c` is white space.
pub fn space(c: char) -> (r: bool)
    ensures
        r == is_space(c),
{
    ('\u{9}' <= c && c <= '\u{d}') || c == '\u{20}' || c == '\u{85}' || c == '\u{a0}' || c
        == '\u{1680}' || ('\u{2000}' <= c && c <= '\u{200a}') || c == '\u{2028}' || c == '\u{2029}'
        || c == '\u{202f}' || c == '\u{205f}' || c == '\u{3000}'
}

/// The characters of a string, in order.
pub fn chars_of(s: &str) -> (r: Vec<char>)
    ensures
        r@ == s@,
{
    let mut out: Vec<char> = Vec::new();
    for c in it: s.chars()
        invariant
            out@ == it.seq().take(it.index()),
            it.seq() == s@,
    {
        out.push(c);
        proof {
            assert(it.seq().take(it.index() + 1) =~= it.seq().take(it.index()).push(c));
        }
    }
    proof {
        assert(s@.take(s@.len() as int) =~= s@);
    }
    out
}

/// The string made of `chars`.
pub fn text_of(chars: &[char]) -> (r: String)
    ensures
        r@ == chars@,
{
    let mut out = String::new();
    let mut i: usize = 0;
    while i < chars.len()
        invariant
            i <= chars@.len(),
            out@ == chars@.take(i as int),
        decreases chars@.len() - i,
    {
        out.push(chars[i]);
        proof {
            assert(chars@.take(i + 1) =~= chars@.take(i as int).push(chars@[i as int]));
        }
        i += 1;
    }
    proof {
        assert(chars@.take(chars@.len() as int) =~= chars@);
    }
    out
}

/// The string made of `chars[from..to]`.
pub fn slice_text(chars: &[char], from: usize, to: usize) -> (r: String)
    requires
        from <= to <= chars@.len(),
    ensures
        r@ == chars@.subrange(from as int, to as int),
{
    let mut out = String::new();
    let mut i: usize = from;
    while i < to
        invariant
            from <= i <= to <= chars@.len(),
            out@ == chars@.subrange(from as int, i as int),
        decreases to - i,
    {
        out.push(chars[i]);
        proof {
            assert(chars@.subrange(from as int, i + 1) =~= chars@.subrange(
                from as int,
                i as int,
            ).push(chars@[i as int]));
        }
        i += 1;
    }
    out
}

/// Whether two strings hold the same characters.
pub fn same(a: &str, b: &str) -> (r: bool)
    ensures
        r == (a@ == b@),
{
    same_chars(&chars_of(a), &chars_of(b))
}

/// Whether two runs of characters are equal.
pub fn same_chars(a: &[char], b: &[char]) -> (r: bool)
    ensures
        r == (a@ == b@),
{
    if a.len() != b.len() {
        return false;
    }
    let mut i: usize = 0;
    while i < a.len()
        invariant
            i <= a@.len(),
            a@.len() == b@.len(),
            forall|j: int| 0 <= j < i ==> a@[j] == b@[j],
        decreases a@.len() - i,
    {
        if a[i] != b[i] {
            return false;
        }
        i += 1;
    }
    proof {
        assert(a@ =~= b@);
    }
    true
}


/// The characters held by an optional string.
pub open spec fn opt_text(o: Option<String>) -> Option<Seq<char>> {
    match o {
        Some(s) => Some(s@),
        None => None,
    }
}

/// The characters held by an optional string slice.
pub open spec fn opt_str(o: Option<&str>) -> Option<Seq<char>> {
    match o {
        Some(s) => Some(s@),
        None => None,
    }
}

/// The characters held by a result of two strings.
pub open spec fn result_text(r: Result<String, String>) -> Result<Seq<char>, Seq<char>> {
    match r {
        Ok(s) => Ok(s@),
        Err(e) => Err(e@),
    }
}

/// The characters held by each string of a list.
pub open spec fn texts(v: Seq<String>) -> Seq<Seq<char>> {
    v.map_values(|s: String| s@)
}

/// A copy of an optional string.
pub fn clone_opt(o: &Option<String>) -> (r: Option<String>)
    ensures
        opt_text(r) == opt_text(*o),
{
    match o {
        Some(s) => Some(s.clone()),
        None => None,
    }
}

/// A copy of a list of strings.
pub fn clone_texts(v: &[String]) -> (r: Vec<String>)
    ensures
        texts(r@) == texts(v@),
{
    let mut out: Vec<String> = Vec::new();
    let mut i: usize = 0;
    while i < v.len()
        invariant
            i <= v@.len(),
            out@.len() == i,
            forall|j: int| 0 <= j < i ==> out@[j]@ == v@[j]@,
        decreases v@.len() - i,
    {
        out.push(v[i].clone());
        i += 1;
    }
    proof {
        assert(texts(out@) =~= texts(v@));
    }
    out
}

/// Whether a list of strings holds `s`.
pub fn list_contains(v: &[String], s: &str) -> (r: bool)
    ensures
        r == texts(v@).contains(s@),
{
    let mut i: usize = 0;
    while i < v.len()
        invariant
            i <= v@.len(),
            forall|j: int| 0 <= j < i ==> v@[j]@ != s@,
        decreases v@.len() - i,
    {
        if same(v[i].as_str(), s) {
            proof {
                assert(texts(v@)[i as int] == s@);
            }
            return true;
        }
        i += 1;
    }
    proof {
        assert forall|j: int| 0 <= j < texts(v@).len() implies texts(v@)[j] != s@ by {
            assert(v@[j]@ != s@);
        }
    }
    false
}

// ── Runs and trimming ────────────────────────────────────────────────────────

/// How many characters at the front of `s` satisfy `p`, up to the first that does not.
pub open spec fn run(s: Seq<char>, p: spec_fn(char) -> bool) -> nat
    decreases s.len(),
{
    if s.len() == 0 || !p(s[0]) {
        0
    } else {
        1 + run(s.drop_first(), p)
    }
}

/// `run(s, p)` is `n` when the first `n` characters satisfy `p` and the next one does not.
pub proof fn lemma_run_is(s: Seq<char>, p: spec_fn(char) -> bool, n: nat)
    requires
        n <= s.len(),
        forall|j: int| 0 <= j < n ==> p(s[j]),
        n < s.len() ==> !p(s[n as int]),
    ensures
        run(s, p) == n,
    decreases n,
{
    if n > 0 {
        assert(p(s[0]));
        let t = s.drop_first();
        assert forall|j: int| 0 <= j < n - 1 implies p(t[j]) by {
            assert(p(s[j + 1]));
        }
        lemma_run_is(t, p, (n - 1) as nat);
    }
}

/// A run stays within the text, is made of matching characters, and stops at one that is not.
pub proof fn lemma_run(s: Seq<char>, p: spec_fn(char) -> bool)
    ensures
        run(s, p) <= s.len(),
        forall|j: int| 0 <= j < run(s, p) ==> p(#[trigger] s[j]),
        run(s, p) < s.len() ==> !p(s[run(s, p) as int]),
    decreases s.len(),
{
    if s.len() > 0 && p(s[0]) {
        let t = s.drop_first();
        lemma_run(t, p);
        assert forall|j: int| 0 <= j < run(s, p) implies p(#[trigger] s[j]) by {
            if j > 0 {
                assert(s[j] == t[j - 1]);
            }
        }
    }
}

/// `s` without the white space at its front.
pub open spec fn trim_start(s: Seq<char>) -> Seq<char> {
    s.skip(run(s, |c: char| is_space(c)) as int)
}

/// `s` without the white space at its end.
pub open spec fn trim_end(s: Seq<char>) -> Seq<char>
    decreases s.len(),
{
    if s.len() > 0 && is_space(s.last()) {
        trim_end(s.drop_last())
    } else {
        s
    }
}

/// `s` without the white space at either end.
pub open spec fn trim(s: Seq<char>) -> Seq<char> {
    trim_end(trim_start(s))
}

/// Where the leading white space of `chars[from..]` ends.
pub fn skip_space(chars: &[char], from: usize) -> (r: usize)
    requires
        from <= chars@.len(),
    ensures
        from <= r <= chars@.len(),
        r - from == run(chars@.skip(from as int), |c: char| is_space(c)),
        chars@.skip(r as int) == trim_start(chars@.skip(from as int)),
{
    let mut i: usize = from;
    while i < chars.len() && space(chars[i])
        invariant
            from <= i <= chars@.len(),
            forall|j: int| from <= j < i ==> is_space(#[trigger] chars@[j]),
        decreases chars@.len() - i,
    {
        i += 1;
    }
    proof {
        let t = chars@.skip(from as int);
        assert forall|j: int| 0 <= j < i - from implies is_space(t[j]) by {
            assert(t[j] == chars@[from + j]);
        }
        lemma_run_is(t, |c: char| is_space(c), (i - from) as nat);
        assert(chars@.skip(i as int) =~= t.skip(i - from));
    }
    i
}

proof fn lemma_trim_end_is(s: Seq<char>, n: nat)
    requires
        n <= s.len(),
        forall|j: int| n <= j < s.len() ==> is_space(#[trigger] s[j]),
        n > 0 ==> !is_space(s[n - 1]),
    ensures
        trim_end(s) == s.take(n as int),
    decreases s.len(),
{
    if n < s.len() {
        assert(is_space(s.last()));
        let t = s.drop_last();
        assert forall|j: int| n <= j < t.len() implies is_space(#[trigger] t[j]) by {
            assert(t[j] == s[j]);
        }
        lemma_trim_end_is(t, n);
        assert(t.take(n as int) =~= s.take(n as int));
    } else {
        assert(s.take(n as int) =~= s);
    }
}

/// The bounds within `chars` of its trimmed form.
pub fn trim_bounds(chars: &[char]) -> (r: (usize, usize))
    ensures
        r.0 <= r.1 <= chars@.len(),
        chars@.subrange(r.0 as int, r.1 as int) == trim(chars@),
{
    let from = skip_space(chars, 0);
    proof {
        assert(chars@.skip(0) =~= chars@);
    }
    let mut to: usize = chars.len();
    while to > from && space(chars[to - 1])
        invariant
            from <= to <= chars@.len(),
            forall|j: int| to <= j < chars@.len() ==> is_space(#[trigger] chars@[j]),
        decreases to,
    {
        to -= 1;
    }
    proof {
        let t = chars@.skip(from as int);
        assert forall|j: int| to - from <= j < t.len() implies is_space(#[trigger] t[j]) by {
            assert(t[j] == chars@[from + j]);
        }
        if to > from {
            assert(t[to - from - 1] == chars@[to - 1]);
        }
        lemma_trim_end_is(t, (to - from) as nat);
        assert(t.take(to - from) =~= chars@.subrange(from as int, to as int));
    }
    (from, to)
}

/// `s` without the white space at either end.
pub fn trimmed(s: &str) -> (r: String)
    ensures
        r@ == trim(s@),
{
    let chars = chars_of(s);
    let (from, to) = trim_bounds(&chars);
    slice_text(&chars, from, to)
}

/// Whether nothing but white space is in `s`.
pub fn is_blank(s: &str) -> (r: bool)
    ensures
        r == (trim(s@).len() == 0),
{
    let chars = chars_of(s);
    let (from, to) = trim_bounds(&chars);
    from == to
}

/// The words of `s`: its runs of characters that are not white space.
pub open spec fn words(s: Seq<char>) -> Seq<Seq<char>>
    decreases s.len(),
{
    let t = trim_start(s);
    let n = run(t, |c: char| !is_space(c));
    if t.len() == 0 || t.len() > s.len() || n == 0 || n > t.len() {
        Seq::empty()
    } else {
        seq![t.take(n as int)] + words(t.skip(n as int))
    }
}

/// The words of `s`, in order.
pub fn split_words(s: &str) -> (r: Vec<String>)
    ensures
        texts(r@) == words(s@),
{
    let chars = chars_of(s);
    let mut out: Vec<String> = Vec::new();
    let mut i: usize = 0;
    proof {
        assert(chars@.skip(0) =~= s@);
        assert(texts(out@) + words(s@) =~= words(s@));
    }
    while i < chars.len()
        invariant
            i <= chars@.len(),
            chars@ == s@,
            texts(out@) + words(chars@.skip(i as int)) == words(s@),
        decreases chars@.len() - i,
    {
        let ghost rest = chars@.skip(i as int);
        let from = skip_space(&chars, i);
        let mut to: usize = from;
        while to < chars.len() && !space(chars[to])
            invariant
                from <= to <= chars@.len(),
                forall|j: int| from <= j < to ==> !is_space(#[trigger] chars@[j]),
            decreases chars@.len() - to,
        {
            to += 1;
        }
        let ghost t = chars@.skip(from as int);
        proof {
            lemma_run(rest, |c: char| is_space(c));
            assert forall|j: int| 0 <= j < to - from implies !is_space(t[j]) by {
                assert(t[j] == chars@[from + j]);
            }
            lemma_run_is(t, |c: char| !is_space(c), (to - from) as nat);
        }
        if from == chars.len() {
            proof {
                assert(words(rest) =~= Seq::empty());
                assert(texts(out@) + words(rest) =~= texts(out@));
            }
            return out;
        }
        let ghost before = texts(out@);
        out.push(slice_text(&chars, from, to));
        proof {
            assert(t[0] == chars@[from as int]);
            assert(rest.skip(from - i) =~= t);
            assert(!is_space(t[0]));
            assert(t.take(to - from) =~= chars@.subrange(from as int, to as int));
            assert(t.skip(to - from) =~= chars@.skip(to as int));
            assert(texts(out@) =~= before.push(chars@.subrange(from as int, to as int)));
            assert(before.push(t.take(to - from)) + words(t.skip(to - from)) =~= before + (
            seq![t.take(to - from)] + words(t.skip(to - from))));
        }
        i = to;
    }
    proof {
        assert(chars@.skip(i as int).len() == 0);
        assert(words(chars@.skip(i as int)) =~= Seq::empty());
        assert(texts(out@) + Seq::empty() =~= texts(out@));
    }
    out
}

// ── Finding and splitting ────────────────────────────────────────────────────

/// Where `c` first occurs in `chars[from..]`, as an index into `chars`.
pub fn find_char(chars: &[char], from: usize, c: char) -> (r: Option<usize>)
    requires
        from <= chars@.len(),
    ensures
        match r {
            Some(i) => from <= i < chars@.len() && chars@.skip(from as int).index_of_first(c)
                == Some(i - from),
            None => chars@.skip(from as int).index_of_first(c) is None,
        },
{
    let ghost rest = chars@.skip(from as int);
    let mut i: usize = from;
    proof {
        rest.index_of_first_ensures(c);
    }
    while i < chars.len()
        invariant
            from <= i <= chars@.len(),
            rest == chars@.skip(from as int),
            forall|j: int| 0 <= j < i - from ==> #[trigger] rest[j] != c,
            match rest.index_of_first(c) {
                Some(index) => {
                    &&& 0 <= index < rest.len()
                    &&& rest[index] == c
                    &&& forall|j: int| 0 <= j < index < rest.len() ==> rest[j] != c
                },
                None => !rest.contains(c),
            },
        decreases chars@.len() - i,
    {
        if chars[i] == c {
            proof {
                assert(rest[i - from] == c);
                assert(rest.contains(c));
            }
            return Some(i);
        }
        proof {
            assert(rest[i - from] == chars@[i as int]);
        }
        i += 1;
    }
    None
}

/// Where `c` last occurs in `chars`.
pub fn find_last(chars: &[char], c: char) -> (r: Option<usize>)
    ensures
        match r {
            Some(i) => i < chars@.len() && chars@.index_of_last(c) == Some(i as int),
            None => chars@.index_of_last(c) is None,
        },
{
    proof {
        chars@.index_of_last_ensures(c);
    }
    let mut i: usize = chars.len();
    while i > 0
        invariant
            i <= chars@.len(),
            forall|j: int| i <= j < chars@.len() ==> chars@[j] != c,
            match chars@.index_of_last(c) {
                Some(index) => {
                    &&& 0 <= index < chars@.len()
                    &&& chars@[index] == c
                    &&& forall|j: int| 0 <= index < j < chars@.len() ==> chars@[j] != c
                },
                None => !chars@.contains(c),
            },
        decreases i,
    {
        i -= 1;
        if chars[i] == c {
            proof {
                assert(chars@.contains(c));
            }
            return Some(i);
        }
    }
    None
}

/// The pieces of `s` between occurrences of `c`; one piece when `c` does not occur.
pub open spec fn split_on(s: Seq<char>, c: char) -> Seq<Seq<char>>
    decreases s.len(),
{
    match s.index_of_first(c) {
        Some(i) => if 0 <= i < s.len() {
            seq![s.take(i)] + split_on(s.skip(i + 1), c)
        } else {
            seq![s]
        },
        None => seq![s],
    }
}

/// The pieces of `s` between occurrences of `c`, in order.
pub fn split_pieces(s: &str, c: char) -> (r: Vec<String>)
    ensures
        texts(r@) == split_on(s@, c),
{
    let chars = chars_of(s);
    let mut out: Vec<String> = Vec::new();
    let total: usize = chars.len();
    let mut from: usize = 0;
    proof {
        assert(chars@.skip(0) =~= s@);
        assert(texts(out@) + split_on(s@, c) =~= split_on(s@, c));
    }
    loop
        invariant
            from <= chars@.len(),
            chars@.len() == total,
            chars@ == s@,
            texts(out@) + split_on(chars@.skip(from as int), c) == split_on(s@, c),
        decreases chars@.len() + 1 - from,
    {
        let ghost rest = chars@.skip(from as int);
        let ghost before = texts(out@);
        match find_char(&chars, from, c) {
            Some(i) => {
                out.push(slice_text(&chars, from, i));
                proof {
                    let piece = chars@.subrange(from as int, i as int);
                    assert(rest.take(i - from) =~= piece);
                    assert(rest.skip(i - from + 1) =~= chars@.skip(i + 1));
                    assert(texts(out@) =~= before.push(piece));
                    assert(before.push(piece) + split_on(chars@.skip(i + 1), c) =~= before + (
                    seq![piece] + split_on(chars@.skip(i + 1), c)));
                }
                from = i + 1;
            },
            None => {
                out.push(slice_text(&chars, from, chars.len()));
                proof {
                    assert(chars@.subrange(from as int, chars@.len() as int) =~= rest);
                    assert(texts(out@) =~= before.push(rest));
                    assert(before.push(rest) =~= before + seq![rest]);
                }
                return out;
            },
        }
    }
}

/// Where `pat` first occurs in `s`.
pub open spec fn find(s: Seq<char>, pat: Seq<char>) -> Option<int>
    decreases s.len(),
{
    if pat.is_prefix_of(s) {
        Some(0)
    } else if s.len() == 0 {
        None
    } else {
        match find(s.drop_first(), pat) {
            Some(i) => Some(i + 1),
            None => None,
        }
    }
}

/// Whether `pat` occurs in `s`.
pub open spec fn holds(s: Seq<char>, pat: Seq<char>) -> bool {
    find(s, pat) is Some
}

/// Whether `pat` stands in `chars` at `at`.
pub fn matches_at(chars: &[char], at: usize, pat: &[char]) -> (r: bool)
    requires
        at <= chars@.len(),
    ensures
        r == pat@.is_prefix_of(chars@.skip(at as int)),
{
    let total: usize = chars.len();
    if pat.len() > total - at {
        return false;
    }
    let ghost rest = chars@.skip(at as int);
    let mut i: usize = 0;
    while i < pat.len()
        invariant
            i <= pat@.len(),
            total == chars@.len(),
            pat@.len() <= total - at,
            rest == chars@.skip(at as int),
            forall|j: int| 0 <= j < i ==> #[trigger] rest[j] == pat@[j],
        decreases pat@.len() - i,
    {
        if chars[at + i] != pat[i] {
            proof {
                assert(rest[i as int] != pat@[i as int]);
                assert(rest.subrange(0, pat@.len() as int)[i as int] == rest[i as int]);
            }
            return false;
        }
        i += 1;
    }
    proof {
        assert(pat@ =~= rest.subrange(0, pat@.len() as int));
    }
    true
}

/// Whether `s` begins with `prefix`.
pub fn starts_with(s: &str, prefix: &str) -> (r: bool)
    ensures
        r == prefix@.is_prefix_of(s@),
{
    let chars = chars_of(s);
    proof {
        assert(chars@.skip(0) =~= s@);
    }
    matches_at(&chars, 0, &chars_of(prefix))
}

/// Whether `s` begins with the character `c`.
pub open spec fn begins(s: Seq<char>, c: char) -> bool {
    s.len() > 0 && s[0] == c
}

/// Whether `s` begins with the character `c`.
pub fn begins_with(s: &str, c: char) -> (r: bool)
    ensures
        r == begins(s@, c),
{
    s.unicode_len() > 0 && s.get_char(0) == c
}

/// What follows `prefix` at the front of `s`, when it stands there.
pub fn strip_prefix(s: &str, prefix: &str) -> (r: Option<String>)
    ensures
        opt_text(r) == (if prefix@.is_prefix_of(s@) {
            Some(s@.skip(prefix@.len() as int))
        } else {
            None
        }),
{
    let chars = chars_of(s);
    let pre = chars_of(prefix);
    proof {
        assert(chars@.skip(0) =~= s@);
    }
    if matches_at(&chars, 0, &pre) {
        let rest = slice_text(&chars, pre.len(), chars.len());
        proof {
            assert(rest@ =~= s@.skip(prefix@.len() as int));
        }
        Some(rest)
    } else {
        None
    }
}

/// Where `pat` first occurs in `chars`.
pub fn find_pattern(chars: &[char], pat: &[char]) -> (r: Option<usize>)
    ensures
        match r {
            Some(i) => i <= chars@.len() && pat@.is_prefix_of(chars@.skip(i as int)) && find(
                chars@,
                pat@,
            ) == Some(i as int),
            None => find(chars@, pat@) is None,
        },
{
    let mut i: usize = 0;
    proof {
        assert(chars@.skip(0) =~= chars@);
    }
    loop
        invariant
            i <= chars@.len(),
            match find(chars@.skip(i as int), pat@) {
                Some(k) => find(chars@, pat@) == Some(k + i),
                None => find(chars@, pat@) is None,
            },
        decreases chars@.len() - i,
    {
        if matches_at(chars, i, pat) {
            return Some(i);
        }
        if i == chars.len() {
            return None;
        }
        proof {
            assert(chars@.skip(i as int).drop_first() =~= chars@.skip(i + 1));
        }
        i += 1;
    }
}

/// Whether `pat` occurs in `s`.
pub fn contains(s: &str, pat: &str) -> (r: bool)
    ensures
        r == holds(s@, pat@),
{
    find_pattern(&chars_of(s), &chars_of(pat)).is_some()
}

/// Whether the character `c` occurs in `s`.
pub fn contains_char(s: &str, c: char) -> (r: bool)
    ensures
        r == s@.contains(c),
{
    let chars = chars_of(s);
    proof {
        chars@.index_of_first_ensures(c);
        assert(chars@.skip(0) =~= chars@);
    }
    find_char(&chars, 0, c).is_some()
}

// ── Order ────────────────────────────────────────────────────────────────────

/// Dictionary order by code point, the order in which strings sort.
pub open spec fn less(a: Seq<char>, b: Seq<char>) -> bool
    decreases a.len(),
{
    if b.len() == 0 {
        false
    } else if a.len() == 0 {
        true
    } else if a[0] != b[0] {
        a[0] < b[0]
    } else {
        less(a.drop_first(), b.drop_first())
    }
}

/// Whether `a` sorts before `b`.
pub fn sorts_before(a: &str, b: &str) -> (r: bool)
    ensures
        r == less(a@, b@),
{
    let x = chars_of(a);
    let y = chars_of(b);
    let mut i: usize = 0;
    proof {
        assert(x@.skip(0) =~= x@);
        assert(y@.skip(0) =~= y@);
    }
    while i < x.len() && i < y.len()
        invariant
            i <= x@.len(),
            i <= y@.len(),
            x@ == a@,
            y@ == b@,
            less(x@.skip(i as int), y@.skip(i as int)) == less(x@, y@),
        decreases x@.len() - i,
    {
        proof {
            assert(x@.skip(i as int)[0] == x@[i as int]);
            assert(y@.skip(i as int)[0] == y@[i as int]);
        }
        if x[i] != y[i] {
            return x[i] < y[i];
        }
        proof {
            assert(x@.skip(i as int).drop_first() =~= x@.skip(i + 1));
            assert(y@.skip(i as int).drop_first() =~= y@.skip(i + 1));
        }
        i += 1;
    }
    i < y.len()
}

/// Dictionary order never places a text before itself.
pub proof fn lemma_less_irreflexive(a: Seq<char>)
    ensures
        !less(a, a),
    decreases a.len(),
{
    if a.len() > 0 {
        lemma_less_irreflexive(a.drop_first());
    }
}

/// Dictionary order is transitive.
pub proof fn lemma_less_transitive(a: Seq<char>, b: Seq<char>, c: Seq<char>)
    requires
        less(a, b),
        less(b, c),
    ensures
        less(a, c),
    decreases a.len(),
{
    if a.len() > 0 && b.len() > 0 && c.len() > 0 && a[0] == b[0] && b[0] == c[0] {
        lemma_less_transitive(a.drop_first(), b.drop_first(), c.drop_first());
    }
}

/// Of two different texts one sorts before the other.
pub proof fn lemma_less_total(a: Seq<char>, b: Seq<char>)
    ensures
        a == b || less(a, b) || less(b, a),
    decreases a.len(),
{
    if a.len() > 0 && b.len() > 0 && a[0] == b[0] {
        lemma_less_total(a.drop_first(), b.drop_first());
        if a.drop_first() == b.drop_first() {
            assert(a =~= seq![a[0]] + a.drop_first());
            assert(b =~= seq![b[0]] + b.drop_first());
        }
    } else if a.len() == 0 && b.len() == 0 {
        assert(a =~= b);
    }
}

// ── Numbers ──────────────────────────────────────────────────────────────────

/// The decimal digit for `d`.
pub open spec fn digit(d: nat) -> char {
    (48 + d) as char
}

/// The decimal form of `n`, with no leading zeros.
pub open spec fn decimal(n: nat) -> Seq<char>
    decreases n,
{
    if n < 10 {
        seq![digit(n)]
    } else {
        decimal(n / 10).push(digit(n % 10))
    }
}

/// The decimal form of `n`.
pub fn decimal_of(n: u64) -> (r: String)
    ensures
        r@ == decimal(n as nat),
    decreases n,
{
    let mut out = if n < 10 {
        String::new()
    } else {
        decimal_of(n / 10)
    };
    let d: u8 = (n % 10) as u8;
    out.push((48u8 + d) as char);
    out
}

/// Whether `c` is a decimal digit.
pub open spec fn is_digit(c: char) -> bool {
    '0' <= c <= '9'
}

/// The number that a run of decimal digits writes.
pub open spec fn digits_value(s: Seq<char>) -> nat
    decreases s.len(),
{
    if s.len() == 0 {
        0
    } else {
        10 * digits_value(s.drop_last()) + ((s.last() as nat - 48) as nat)
    }
}

/// Whether `s` is made of decimal digits only.
pub open spec fn all_digits(s: Seq<char>) -> bool {
    forall|i: int| 0 <= i < s.len() ==> is_digit(#[trigger] s[i])
}

/// `s` without one leading `+`.
pub open spec fn without_plus(s: Seq<char>) -> Seq<char> {
    if begins(s, '+') {
        s.drop_first()
    } else {
        s
    }
}

/// What `s` reads as: an optional `+`, then decimal digits writing a number up to `max`.
pub open spec fn unsigned(s: Seq<char>, max: nat) -> Option<nat> {
    let d = without_plus(s);
    if d.len() > 0 && all_digits(d) && digits_value(d) <= max {
        Some(digits_value(d))
    } else {
        None
    }
}

proof fn lemma_digits_value_grows(s: Seq<char>, n: int)
    requires
        0 <= n <= s.len(),
    ensures
        digits_value(s.take(n)) <= digits_value(s),
    decreases s.len() - n,
{
    if n < s.len() {
        lemma_digits_value_grows(s, n + 1);
        assert(s.take(n + 1).drop_last() =~= s.take(n));
    } else {
        assert(s.take(n) =~= s);
    }
}

/// What `s` reads as: an optional `+`, then decimal digits.
pub fn parse_u64(s: &str) -> (r: Option<u64>)
    ensures
        match r {
            Some(n) => unsigned(s@, u64::MAX as nat) == Some(n as nat),
            None => unsigned(s@, u64::MAX as nat) is None,
        },
{
    let chars = chars_of(s);
    let from: usize = if chars.len() > 0 && chars[0] == '+' {
        1
    } else {
        0
    };
    let ghost d = chars@.skip(from as int);
    proof {
        if from == 0 {
            assert(d =~= s@);
        } else {
            assert(d =~= s@.drop_first());
        }
    }
    if from == chars.len() {
        return None;
    }
    let mut n: u64 = 0;
    let mut i: usize = from;
    proof {
        assert(d.take(0).len() == 0);
    }
    while i < chars.len()
        invariant
            from <= i <= chars@.len(),
            d == chars@.skip(from as int),
            forall|j: int| 0 <= j < i - from ==> is_digit(#[trigger] d[j]),
            n == digits_value(d.take(i - from)),
            d == without_plus(s@),
        decreases chars@.len() - i,
    {
        let c = chars[i];
        if !('0' <= c && c <= '9') {
            proof {
                assert(!is_digit(d[i - from]));
            }
            return None;
        }
        let v: u64 = (c as u32 - 48) as u64;
        proof {
            assert(d.take(i + 1 - from).drop_last() =~= d.take(i - from));
            assert(d.take(i + 1 - from).last() == c);
            assert(digits_value(d.take(i + 1 - from)) == 10 * n + v);
            lemma_digits_value_grows(d, i + 1 - from);
        }
        if n > u64::MAX / 10 || (n == u64::MAX / 10 && v > u64::MAX % 10) {
            return None;
        }
        n = n * 10 + v;
        i += 1;
    }
    proof {
        assert(d.take(i - from) =~= d);
    }
    Some(n)
}

/// What `s` reads as: an optional `+`, then decimal digits writing a number up to `max`.
pub fn parse_up_to(s: &str, max: u64) -> (r: Option<u64>)
    ensures
        match r {
            Some(n) => unsigned(s@, max as nat) == Some(n as nat) && n <= max,
            None => unsigned(s@, max as nat) is None,
        },
{
    match parse_u64(s) {
        Some(n) => if n <= max {
            Some(n)
        } else {
            None
        },
        None => None,
    }
}

// ── Case and joining ─────────────────────────────────────────────────────────

/// `c` with an ASCII capital letter made small.
pub open spec fn ascii_lower(c: char) -> char {
    if 'A' <= c <= 'Z' {
        (c as u32 + 32) as char
    } else {
        c
    }
}

/// `s` with its ASCII capital letters made small.
pub open spec fn lowered(s: Seq<char>) -> Seq<char> {
    s.map_values(|c: char| ascii_lower(c))
}

/// `s` with its ASCII capital letters made small.
pub fn ascii_lowered(s: &str) -> (r: String)
    ensures
        r@ == lowered(s@),
{
    let chars = chars_of(s);
    let mut out = String::new();
    let mut i: usize = 0;
    while i < chars.len()
        invariant
            i <= chars@.len(),
            chars@ == s@,
            out@ == lowered(s@).take(i as int),
        decreases chars@.len() - i,
    {
        let c = chars[i];
        let l = if 'A' <= c && c <= 'Z' {
            (c as u8 + 32u8) as char
        } else {
            c
        };
        out.push(l);
        proof {
            assert(lowered(s@).take(i + 1) =~= lowered(s@).take(i as int).push(l));
        }
        i += 1;
    }
    proof {
        assert(lowered(s@).take(s@.len() as int) =~= lowered(s@));
    }
    out
}

/// What `char::to_lowercase` gives for a character.
pub uninterp spec fn lowercase(c: char) -> Seq<char>;

/// Trusted: `char::to_lowercase` depends on the character alone, and gives an ASCII character its
/// ASCII lower case.
#[verifier::external_body]
pub(crate) fn lowercase_of(c: char) -> (r: String)
    ensures
        r@ == lowercase(c),
        (c as u32) < 128 ==> r@ == seq![ascii_lower(c)],
{
    c.to_lowercase().to_string()
}

/// What `str::to_lowercase` gives for a text.
pub uninterp spec fn lowercase_text(s: Seq<char>) -> Seq<char>;

/// Whether every character is ASCII.
pub open spec fn is_ascii_text(s: Seq<char>) -> bool {
    forall|i: int| 0 <= i < s.len() ==> (#[trigger] s[i] as u32) < 128
}

/// Trusted: `str::to_lowercase` depends on the text alone, and gives ASCII text its ASCII lower
/// case.
#[verifier::external_body]
pub(crate) fn to_lowercase(s: &str) -> (r: String)
    ensures
        r@ == lowercase_text(s@),
        is_ascii_text(s@) ==> r@ == lowered(s@),
{
    s.to_lowercase()
}

/// Whether a message is some words behind `front`.
pub open spec fn says(message: Seq<char>, front: Seq<char>) -> bool {
    exists|words: Seq<char>| message == #[trigger] (front + words)
}

/// How the `Debug` form of a string slice reads.
pub uninterp spec fn debug_text(s: Seq<char>) -> Seq<char>;

/// Trusted: the `Debug` form of a string slice depends on its text alone.
#[verifier::external_body]
pub(crate) fn debug_of(s: &str) -> (r: String)
    ensures
        r@ == debug_text(s@),
{
    format!("{s:?}")
}

/// The parts one after another with `sep` between neighbours.
pub open spec fn join(parts: Seq<Seq<char>>, sep: Seq<char>) -> Seq<char>
    decreases parts.len(),
{
    if parts.len() == 0 {
        Seq::empty()
    } else if parts.len() == 1 {
        parts[0]
    } else {
        join(parts.drop_last(), sep) + sep + parts.last()
    }
}

/// The parts one after another with `sep` between neighbours.
pub fn joined(parts: &[String], sep: &str) -> (r: String)
    ensures
        r@ == join(texts(parts@), sep@),
{
    let mut out = String::new();
    let mut i: usize = 0;
    let ghost all = texts(parts@);
    proof {
        assert(all.take(0).len() == 0);
    }
    while i < parts.len()
        invariant
            i <= parts@.len(),
            all == texts(parts@),
            out@ == join(all.take(i as int), sep@),
        decreases parts@.len() - i,
    {
        proof {
            assert(all.take(i + 1).drop_last() =~= all.take(i as int));
            assert(all.take(i + 1).last() == parts@[i as int]@);
        }
        if i > 0 {
            out.append(sep);
        } else {
            proof {
                assert(out@ + parts@[0]@ =~= parts@[0]@);
            }
        }
        out.append(parts[i].as_str());
        i += 1;
    }
    proof {
        assert(all.take(all.len() as int) =~= all);
    }
    out
}


// ── Sorting ──────────────────────────────────────────────────────────────────

/// `x` put into the ordered list `sorted`, in front of the first text that it sorts before.
pub open spec fn insert_ordered(sorted: Seq<Seq<char>>, x: Seq<char>) -> Seq<Seq<char>>
    decreases sorted.len(),
{
    if sorted.len() == 0 {
        seq![x]
    } else if less(x, sorted.last()) {
        insert_ordered(sorted.drop_last(), x).push(sorted.last())
    } else {
        sorted.push(x)
    }
}

/// The texts of `v` in dictionary order.
pub open spec fn ordered(v: Seq<Seq<char>>) -> Seq<Seq<char>>
    decreases v.len(),
{
    if v.len() == 0 {
        Seq::empty()
    } else {
        insert_ordered(ordered(v.drop_last()), v.last())
    }
}

/// Puts `x` into an ordered list, in front of the first text that it sorts before.
pub fn insert_in_order(sorted: &mut Vec<String>, x: String)
    ensures
        texts(final(sorted)@) == insert_ordered(texts(old(sorted)@), x@),
    decreases old(sorted)@.len(),
{
    let n: usize = sorted.len();
    let ghost before = texts(sorted@);
    if n > 0 && sorts_before(x.as_str(), sorted[n - 1].as_str()) {
        let last = sorted.pop().unwrap();
        proof {
            assert(texts(sorted@) =~= before.drop_last());
        }
        insert_in_order(sorted, x);
        let ghost mid = texts(sorted@);
        sorted.push(last);
        proof {
            assert(texts(sorted@) =~= mid.push(before.last()));
        }
    } else {
        sorted.push(x);
        proof {
            assert(texts(sorted@) =~= before.push(x@));
            if n == 0 {
                assert(before.push(x@) =~= seq![x@]);
            }
        }
    }
}

/// The texts of `v` in dictionary order.
pub fn in_order(v: &[String]) -> (r: Vec<String>)
    ensures
        texts(r@) == ordered(texts(v@)),
{
    let mut out: Vec<String> = Vec::new();
    let ghost all = texts(v@);
    let mut i: usize = 0;
    proof {
        assert(texts(out@) =~= ordered(all.take(0)));
    }
    while i < v.len()
        invariant
            i <= v@.len(),
            all == texts(v@),
            texts(out@) == ordered(all.take(i as int)),
        decreases v@.len() - i,
    {
        proof {
            assert(all.take(i + 1).drop_last() =~= all.take(i as int));
            assert(all.take(i + 1).last() == v@[i as int]@);
        }
        insert_in_order(&mut out, v[i].clone());
        i += 1;
    }
    proof {
        assert(all.take(all.len() as int) =~= all);
    }
    out
}

/// Whether every text of `v` sorts no later than the ones behind it.
pub open spec fn is_ordered(v: Seq<Seq<char>>) -> bool {
    forall|i: int, j: int| 0 <= i < j < v.len() ==> !less(#[trigger] v[j], #[trigger] v[i])
}

proof fn lemma_insert_ordered(sorted: Seq<Seq<char>>, x: Seq<char>)
    requires
        is_ordered(sorted),
    ensures
        is_ordered(insert_ordered(sorted, x)),
        insert_ordered(sorted, x).to_multiset() == sorted.to_multiset().insert(x),
    decreases sorted.len(),
{
    broadcast use vstd::seq_lib::group_to_multiset_ensures;

    let r = insert_ordered(sorted, x);
    if sorted.len() == 0 {
        assert(r =~= sorted.push(x));
    } else if less(x, sorted.last()) {
        let front = sorted.drop_last();
        assert(is_ordered(front)) by {
            assert forall|i: int, j: int| 0 <= i < j < front.len() implies !less(
                #[trigger] front[j],
                #[trigger] front[i],
            ) by {
                assert(front[j] == sorted[j] && front[i] == sorted[i]);
            }
        }
        lemma_insert_ordered(front, x);
        let mid = insert_ordered(front, x);
        assert(sorted =~= front.push(sorted.last()));
        assert forall|i: int, j: int| 0 <= i < j < r.len() implies !less(
            #[trigger] r[j],
            #[trigger] r[i],
        ) by {
            if j == mid.len() {
                assert(mid.to_multiset().contains(mid[i]));
                assert(mid.contains(mid[i]));
                if mid[i] == x {
                    if less(sorted.last(), x) {
                        lemma_less_transitive(x, sorted.last(), x);
                        lemma_less_irreflexive(x);
                    }
                } else {
                    assert(front.to_multiset().contains(mid[i]));
                    assert(front.contains(mid[i]));
                    let k = choose|k: int| 0 <= k < front.len() && front[k] == mid[i];
                    assert(sorted[k] == mid[i]);
                    assert(!less(sorted[sorted.len() - 1], sorted[k]));
                }
            } else {
                assert(r[i] == mid[i] && r[j] == mid[j]);
            }
        }
        assert(r.to_multiset() =~= sorted.to_multiset().insert(x));
    } else {
        assert forall|i: int, j: int| 0 <= i < j < r.len() implies !less(
            #[trigger] r[j],
            #[trigger] r[i],
        ) by {
            if j == sorted.len() {
                if i < sorted.len() - 1 {
                    assert(!less(sorted[sorted.len() - 1], sorted[i]));
                    if less(x, sorted[i]) {
                        lemma_less_total(sorted.last(), sorted[i]);
                        if less(sorted[i], sorted.last()) {
                            lemma_less_transitive(x, sorted[i], sorted.last());
                        }
                    }
                }
            } else {
                assert(r[i] == sorted[i] && r[j] == sorted[j]);
            }
        }
    }
}

/// Ordering a list changes the order of its texts and nothing else, and leaves none in front of
/// one that sorts before it.
pub proof fn ordered_is_sorted_permutation(v: Seq<Seq<char>>)
    ensures
        is_ordered(ordered(v)),
        ordered(v).to_multiset() == v.to_multiset(),
    decreases v.len(),
{
    broadcast use vstd::seq_lib::group_to_multiset_ensures;

    if v.len() > 0 {
        ordered_is_sorted_permutation(v.drop_last());
        lemma_insert_ordered(ordered(v.drop_last()), v.last());
        assert(v =~= v.drop_last().push(v.last()));
    } else {
        assert(ordered(v) =~= v);
    }
}


// ── Concatenation ────────────────────────────────────────────────────────────

/// Two texts one after another.
pub fn cat2(a: &str, b: &str) -> (r: String)
    ensures
        r@ == a@ + b@,
{
    let mut out = a.to_owned();
    out.append(b);
    out
}

/// Three texts one after another.
pub fn cat3(a: &str, b: &str, c: &str) -> (r: String)
    ensures
        r@ == a@ + b@ + c@,
{
    let mut out = a.to_owned();
    out.append(b);
    out.append(c);
    out
}

/// Four texts one after another.
pub fn cat4(a: &str, b: &str, c: &str, d: &str) -> (r: String)
    ensures
        r@ == a@ + b@ + c@ + d@,
{
    let mut out = a.to_owned();
    out.append(b);
    out.append(c);
    out.append(d);
    out
}

/// Five texts one after another.
pub fn cat5(a: &str, b: &str, c: &str, d: &str, e: &str) -> (r: String)
    ensures
        r@ == a@ + b@ + c@ + d@ + e@,
{
    let mut out = a.to_owned();
    out.append(b);
    out.append(c);
    out.append(d);
    out.append(e);
    out
}

/// Six texts one after another.
pub fn cat6(a: &str, b: &str, c: &str, d: &str, e: &str, f: &str) -> (r: String)
    ensures
        r@ == a@ + b@ + c@ + d@ + e@ + f@,
{
    let mut out = a.to_owned();
    out.append(b);
    out.append(c);
    out.append(d);
    out.append(e);
    out.append(f);
    out
}

/// Seven texts one after another.
pub fn cat7(a: &str, b: &str, c: &str, d: &str, e: &str, f: &str, g: &str) -> (r: String)
    ensures
        r@ == a@ + b@ + c@ + d@ + e@ + f@ + g@,
{
    let mut out = a.to_owned();
    out.append(b);
    out.append(c);
    out.append(d);
    out.append(e);
    out.append(f);
    out.append(g);
    out
}

/// Nine texts one after another.
pub fn cat9(a: &str, b: &str, c: &str, d: &str, e: &str, f: &str, g: &str, h: &str, i: &str) -> (r: String)
    ensures
        r@ == a@ + b@ + c@ + d@ + e@ + f@ + g@ + h@ + i@,
{
    let mut out = a.to_owned();
    out.append(b);
    out.append(c);
    out.append(d);
    out.append(e);
    out.append(f);
    out.append(g);
    out.append(h);
    out.append(i);
    out
}

// ── White space at the ends ──────────────────────────────────────────────────

/// Whether a text is white space alone.
pub open spec fn all_blank(w: Seq<char>) -> bool {
    forall|i: int| 0 <= i < w.len() ==> is_space(#[trigger] w[i])
}

/// What stands between two blank ends, itself without any, is what trimming leaves.
pub proof fn trimming_leaves_the_middle(front: Seq<char>, middle: Seq<char>, back: Seq<char>)
    requires
        all_blank(front),
        all_blank(back),
        middle.len() > 0 ==> !is_space(middle[0]) && !is_space(middle.last()),
    ensures
        trim(front + middle + back) == middle,
{
    let s = front + middle + back;
    let p = |c: char| is_space(c);
    if middle.len() > 0 {
        assert(s[front.len() as int] == middle[0]);
        assert forall|j: int| 0 <= j < front.len() implies p(s[j]) by {
            assert(s[j] == front[j]);
        }
        lemma_run_is(s, p, front.len());
        let t = s.skip(front.len() as int);
        assert(t =~= middle + back);
        assert forall|j: int| middle.len() <= j < t.len() implies is_space(#[trigger] t[j]) by {
            assert(t[j] == back[j - middle.len()]);
        }
        lemma_trim_end_is(t, middle.len());
        assert(t.take(middle.len() as int) =~= middle);
    } else {
        assert forall|j: int| 0 <= j < s.len() implies p(s[j]) by {
            if j < front.len() {
                assert(s[j] == front[j]);
            } else {
                assert(s[j] == back[j - front.len()]);
            }
        }
        lemma_run_is(s, p, s.len());
        assert(trim_start(s).len() == 0);
        assert(trim(s) =~= middle);
    }
}

/// The blank ends of a text and what is left between them.
pub proof fn lemma_ends(s: Seq<char>) -> (r: (Seq<char>, Seq<char>))
    ensures
        all_blank(r.0),
        all_blank(r.1),
        s == r.0 + trim(s) + r.1,
        trim(s).len() > 0 ==> !is_space(trim(s)[0]) && !is_space(trim(s).last()),
    decreases s.len(),
{
    if s.len() > 0 && is_space(s[0]) {
        let (front, back) = lemma_ends(s.drop_first());
        let rest = trim(s.drop_first());
        let all = seq![s[0]] + front;
        assert(s =~= seq![s[0]] + (front + rest + back));
        assert(s =~= all + rest + back);
        trimming_leaves_the_middle(all, rest, back);
        (all, back)
    } else if s.len() > 0 && is_space(s.last()) {
        let (front, back) = lemma_ends(s.drop_last());
        let rest = trim(s.drop_last());
        let all = back.push(s.last());
        assert(s =~= (front + rest + back).push(s.last()));
        assert(s =~= front + rest + all);
        trimming_leaves_the_middle(front, rest, all);
        (front, all)
    } else {
        let none = Seq::<char>::empty();
        assert(s =~= none + s + none);
        trimming_leaves_the_middle(none, s, none);
        (none, none)
    }
}

/// Blanks around a text do not count when it is trimmed.
pub proof fn blanks_around_do_not_count(front: Seq<char>, s: Seq<char>, back: Seq<char>)
    requires
        all_blank(front),
        all_blank(back),
    ensures
        trim(front + s + back) == trim(s),
        trim(trim(s)) == trim(s),
{
    let (f, b) = lemma_ends(s);
    let none = Seq::<char>::empty();
    assert(front + s + back =~= (front + f) + trim(s) + (b + back));
    trimming_leaves_the_middle(front + f, trim(s), b + back);
    assert(trim(s) =~= none + trim(s) + none);
    trimming_leaves_the_middle(none, trim(s), none);
}

/// Splitting cuts at every occurrence: the pieces of two texts with the character between them are
/// the pieces of the one, then those of the other, and a text without it is one piece.
pub proof fn splitting_cuts_at_every_one(a: Seq<char>, c: char, b: Seq<char>)
    ensures
        split_on(a + seq![c] + b, c) == split_on(a, c) + split_on(b, c),
        !a.contains(c) ==> split_on(a, c) == seq![a],
        split_on(a, c).len() > 0,
        split_on(a, c)[0].len() <= a.len(),
        !split_on(a, c)[0].contains(c),
        !split_on(a, c).last().contains(c),
    decreases a.len(),
{
    let s = a + seq![c] + b;
    a.index_of_first_ensures(c);
    s.index_of_first_ensures(c);
    assert(s[a.len() as int] == c);
    assert(s.contains(c));
    let i = s.index_of_first(c)->0;
    if a.contains(c) {
        let k = a.index_of_first(c)->0;
        assert(s[k] == a[k]);
        if i < k {
            assert(a[i] == s[i]);
        }
        assert(i == k);
        let rest = a.skip(k + 1);
        assert(s.take(i) =~= a.take(k));
        assert(s.skip(i + 1) =~= rest + seq![c] + b);
        splitting_cuts_at_every_one(rest, c, b);
        assert(split_on(a, c) == seq![a.take(k)] + split_on(rest, c));
        assert(split_on(a, c).last() == split_on(rest, c).last());
        assert(split_on(s, c) =~= split_on(a, c) + split_on(b, c));
        if a.take(k).contains(c) {
            let m = choose|m: int| 0 <= m < k && a.take(k)[m] == c;
            assert(a[m] == c);
        }
    } else {
        if i < a.len() {
            assert(a[i] == s[i]);
            assert(a.contains(c));
        }
        assert(i == a.len());
        assert(s.take(i) =~= a);
        assert(s.skip(i + 1) =~= b);
        assert(split_on(a, c) =~= seq![a]);
    }
}

/// The words of two texts with a blank between them are the words of the one, then those of the
/// other. A text without blanks is one word, and one of blanks has none.
pub proof fn words_add_up(a: Seq<char>, c: char, b: Seq<char>)
    requires
        is_space(c),
    ensures
        words(a + seq![c] + b) == words(a) + words(b),
        a.len() > 0 && (forall|i: int| 0 <= i < a.len() ==> !is_space(#[trigger] a[i])) ==> words(a)
            == seq![a],
        all_blank(a) ==> words(a).len() == 0,
    decreases a.len(),
{
    let s = a + seq![c] + b;
    let blank = |ch: char| is_space(ch);
    let solid = |ch: char| !is_space(ch);
    let k = run(a, blank);
    lemma_run(a, blank);
    let t = a.skip(k as int);
    assert(trim_start(a) == t);
    if k == a.len() {
        assert(t.len() == 0);
        assert(words(a) =~= Seq::empty());
        let m = run(b, blank);
        lemma_run(b, blank);
        assert forall|j: int| 0 <= j < a.len() + 1 + m implies blank(s[j]) by {
            if j < a.len() {
                assert(s[j] == a[j]);
            } else if j > a.len() {
                assert(s[j] == b[j - a.len() - 1]);
            }
        }
        if m < b.len() {
            assert(s[(a.len() + 1 + m) as int] == b[m as int]);
        }
        lemma_run_is(s, blank, (a.len() + 1 + m) as nat);
        assert(trim_start(s) =~= trim_start(b));
        assert(words(a) + words(b) =~= words(b));
        lemma_words_from_their_start(s, b);
    } else {
        assert(!blank(a[k as int]));
        assert forall|j: int| 0 <= j < k implies blank(s[j]) by {
            assert(s[j] == a[j]);
        }
        assert(s[k as int] == a[k as int]);
        lemma_run_is(s, blank, k);
        let u = trim_start(s);
        assert(u =~= t + seq![c] + b);
        let n = run(t, solid);
        lemma_run(t, solid);
        assert(t[0] == a[k as int]);
        assert(n > 0);
        assert forall|j: int| 0 <= j < n implies solid(u[j]) by {
            assert(u[j] == t[j]);
        }
        if n < t.len() {
            assert(u[n as int] == t[n as int]);
        } else {
            assert(u[n as int] == c);
        }
        lemma_run_is(u, solid, n);
        let rest = t.skip(n as int);
        assert(u.take(n as int) =~= t.take(n as int));
        assert(u.skip(n as int) =~= rest + seq![c] + b);
        words_add_up(rest, c, b);
        assert(words(a) == seq![t.take(n as int)] + words(rest));
        assert(words(s) == seq![t.take(n as int)] + words(rest + seq![c] + b));
        assert(words(s) =~= words(a) + words(b));
        if forall|i: int| 0 <= i < a.len() ==> !is_space(#[trigger] a[i]) {
            if k > 0 {
                assert(blank(a[0]));
            }
            assert(t =~= a);
            if n < a.len() {
                assert(!solid(t[n as int]));
                assert(!is_space(a[n as int]));
            }
            assert(t.take(n as int) =~= a);
            assert(rest =~= Seq::empty());
            assert(words(rest) =~= Seq::empty());
            assert(words(a) =~= seq![a]);
        }
        assert(!is_space(a[k as int]));
    }
}

proof fn lemma_words_from_their_start(s: Seq<char>, b: Seq<char>)
    requires
        trim_start(s) == trim_start(b),
        b.len() <= s.len(),
        trim_start(b).len() <= b.len(),
    ensures
        words(s) == words(b),
{
}

/// A number reads back from its decimal form, and has no leading zero unless it is zero.
pub proof fn decimals_read_back(n: nat, max: nat)
    requires
        n <= max,
    ensures
        unsigned(decimal(n), max) == Some(n),
        digits_value(decimal(n)) == n,
        n > 0 ==> decimal(n)[0] != '0',
    decreases n,
{
    lemma_decimal(n);
    assert('0' as nat == 48 && '9' as nat == 57 && '+' as nat == 43);
    assert(is_digit(decimal(n)[0]));
}

proof fn lemma_decimal(n: nat)
    ensures
        decimal(n).len() > 0,
        all_digits(decimal(n)),
        digits_value(decimal(n)) == n,
        n > 0 ==> decimal(n)[0] != '0',
    decreases n,
{
    let s = decimal(n);
    let none = Seq::<char>::empty();
    if n < 10 {
        assert(digit(n) as nat == 48 + n);
        assert(s.drop_last() =~= none);
        assert(digits_value(none) == 0);
        assert(s.last() == digit(n));
    } else {
        lemma_decimal(n / 10);
        assert(digit(n % 10) as nat == 48 + n % 10);
        assert(s.drop_last() =~= decimal(n / 10));
        assert(s[0] == decimal(n / 10)[0]);
        assert forall|i: int| 0 <= i < s.len() implies is_digit(#[trigger] s[i]) by {
            if i < s.len() - 1 {
                assert(s[i] == decimal(n / 10)[i]);
            }
        }
    }
}

/// A pattern is found at the first place where it stands, and nowhere when it stands nowhere.
pub proof fn a_pattern_is_found_where_it_first_stands(s: Seq<char>, pat: Seq<char>)
    ensures
        find(s, pat) is Some ==> 0 <= find(s, pat)->0 <= s.len() && pat.is_prefix_of(
            s.skip(find(s, pat)->0),
        ) && forall|j: int| 0 <= j < find(s, pat)->0 ==> !pat.is_prefix_of(#[trigger] s.skip(j)),
        find(s, pat) is None ==> forall|j: int|
            0 <= j <= s.len() ==> !pat.is_prefix_of(#[trigger] s.skip(j)),
    decreases s.len(),
{
    assert(s.skip(0) =~= s);
    if !pat.is_prefix_of(s) && s.len() > 0 {
        let rest = s.drop_first();
        a_pattern_is_found_where_it_first_stands(rest, pat);
        assert forall|j: int| 1 <= j <= s.len() implies #[trigger] s.skip(j) == rest.skip(
            j - 1,
        ) by {
            assert(s.skip(j) =~= rest.skip(j - 1));
        }
    }
}

/// Joining two lists puts the separator between them once.
pub proof fn joining_puts_the_separator_between(
    a: Seq<Seq<char>>,
    b: Seq<Seq<char>>,
    sep: Seq<char>,
)
    requires
        a.len() > 0,
        b.len() > 0,
    ensures
        join(a + b, sep) == join(a, sep) + sep + join(b, sep),
    decreases b.len(),
{
    let all = a + b;
    assert(all.drop_last() =~= a + b.drop_last());
    assert(all.last() == b.last());
    if b.len() == 1 {
        assert(a + b.drop_last() =~= a);
        assert(join(all, sep) =~= join(a, sep) + sep + join(b, sep));
    } else {
        joining_puts_the_separator_between(a, b.drop_last(), sep);
        assert(join(all, sep) =~= join(a, sep) + sep + join(b, sep));
    }
}

/// Lowering changes capital letters only, one for one, and lowering twice changes nothing more.
pub proof fn lowering_changes_capitals_only(s: Seq<char>)
    ensures
        lowered(s).len() == s.len(),
        forall|i: int|
            0 <= i < s.len() ==> ('A' <= s[i] <= 'Z' ==> (#[trigger] lowered(s)[i]) as u32 == s[i]
                as u32 + 32) && (!('A' <= s[i] <= 'Z') ==> lowered(s)[i] == s[i]),
        lowered(lowered(s)) == lowered(s),
{
    assert forall|i: int| 0 <= i < s.len() implies ('A' <= s[i] <= 'Z' ==> (
    #[trigger] lowered(s)[i]) as u32 == s[i] as u32 + 32) && (!('A' <= s[i] <= 'Z')
        ==> lowered(s)[i] == s[i]) by {
        assert(lowered(s)[i] == ascii_lower(s[i]));
    }
    assert(lowered(lowered(s)) =~= lowered(s));
}

/// Texts sort by their first difference, and a text before every longer one that it begins.
pub proof fn the_first_difference_sorts(
    front: Seq<char>,
    x: char,
    y: char,
    a: Seq<char>,
    b: Seq<char>,
)
    ensures
        x != y ==> (less(front + seq![x] + a, front + seq![y] + b) <==> x < y),
        less(front, front + seq![x] + a),
        !less(front + a, front),
    decreases front.len(),
{
    let one = front + seq![x] + a;
    let two = front + seq![y] + b;
    if front.len() == 0 {
        assert(one[0] == x && two[0] == y);
    } else {
        let rest = front.drop_first();
        the_first_difference_sorts(rest, x, y, a, b);
        assert(one.drop_first() =~= rest + seq![x] + a);
        assert(two.drop_first() =~= rest + seq![y] + b);
        assert((front + a).drop_first() =~= rest + a);
    }
}

} // verus!
