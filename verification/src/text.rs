//! Character-level text handling: whitespace, trimming, word normalisation,
//! splitting, literal replacement and substring search, all over `Seq<char>`
//! models of Rust strings.
use vstd::prelude::*;

verus! {

/// The Unicode `White_Space` property, which `char::is_whitespace`,
/// `str::trim` and `str::split_whitespace` all go by.
pub open spec fn is_space_char(c: char) -> bool {
    let n = c as u32;
    ||| (0x09 <= n && n <= 0x0D)
    ||| n == 0x20
    ||| n == 0x85
    ||| n == 0xA0
    ||| n == 0x1680
    ||| (0x2000 <= n && n <= 0x200A)
    ||| n == 0x2028
    ||| n == 0x2029
    ||| n == 0x202F
    ||| n == 0x205F
    ||| n == 0x3000
}

/// Whether `c` is Unicode white space.
pub fn is_space(c: char) -> (b: bool)
    ensures
        b == is_space_char(c),
{
    let n = c as u32;
    (0x09 <= n && n <= 0x0D) || n == 0x20 || n == 0x85 || n == 0xA0 || n == 0x1680 || (0x2000
        <= n && n <= 0x200A) || n == 0x2028 || n == 0x2029 || n == 0x202F || n == 0x205F || n
        == 0x3000
}

/// `String::push`: appends one character.
#[verifier::external_body]
pub(crate) fn push_char(s: &mut String, c: char)
    ensures
        final(s)@ == old(s)@.push(c),
{
    s.push(c)
}

/// The characters of `s`, in order.
pub fn chars_of(s: &str) -> (v: Vec<char>)
    ensures
        v@ == s@,
{
    let mut v: Vec<char> = Vec::new();
    for c in it: s.chars()
        invariant
            it.seq() == s@,
            v@ == s@.take(it.index() as int),
    {
        proof {
            assert(s@.take(it.index() + 1) == s@.take(it.index() as int).push(c));
        }
        v.push(c);
    }
    proof {
        assert(s@.take(s@.len() as int) == s@);
    }
    v
}

/// A `String` holding exactly the characters of `v`.
pub fn string_of(v: &Vec<char>) -> (s: String)
    ensures
        s@ == v@,
{
    let mut s = String::new();
    let mut i: usize = 0;
    while i < v.len()
        invariant
            i <= v.len(),
            s@ == v@.take(i as int),
        decreases v.len() - i,
    {
        proof {
            assert(v@.take(i + 1) == v@.take(i as int).push(v@[i as int]));
        }
        push_char(&mut s, v[i]);
        i += 1;
    }
    proof {
        assert(v@.take(v@.len() as int) == v@);
    }
    s
}

/// Leading white space removed.
pub open spec fn trim_start_seq(s: Seq<char>) -> Seq<char>
    decreases s.len(),
{
    if s.len() > 0 && is_space_char(s[0]) {
        trim_start_seq(s.drop_first())
    } else {
        s
    }
}

/// Trailing white space removed.
pub open spec fn trim_end_seq(s: Seq<char>) -> Seq<char>
    decreases s.len(),
{
    if s.len() > 0 && is_space_char(s.last()) {
        trim_end_seq(s.drop_last())
    } else {
        s
    }
}

/// What `str::trim` gives: leading and trailing white space removed.
pub open spec fn trim_seq(s: Seq<char>) -> Seq<char> {
    trim_end_seq(trim_start_seq(s))
}

/// Neither end of `s` is white space.
pub open spec fn is_trimmed(s: Seq<char>) -> bool {
    s.len() > 0 ==> (!is_space_char(s[0]) && !is_space_char(s.last()))
}

proof fn lemma_trim_start_skip(s: Seq<char>, i: int)
    requires
        0 <= i <= s.len(),
        forall|k: int| 0 <= k < i ==> is_space_char(#[trigger] s[k]),
    ensures
        trim_start_seq(s) == trim_start_seq(s.skip(i)),
    decreases i,
{
    if i > 0 {
        assert(s.drop_first().skip(i - 1) == s.skip(i));
        assert forall|k: int| 0 <= k < i - 1 implies is_space_char(#[trigger] s.drop_first()[k]) by {
            assert(s.drop_first()[k] == s[k + 1]);
        }
        lemma_trim_start_skip(s.drop_first(), i - 1);
        assert(is_space_char(s[0]));
    } else {
        assert(s.skip(0) == s);
    }
}

proof fn lemma_trim_end_take(s: Seq<char>, j: int)
    requires
        0 <= j <= s.len(),
        forall|k: int| j <= k < s.len() ==> is_space_char(#[trigger] s[k]),
    ensures
        trim_end_seq(s) == trim_end_seq(s.take(j)),
    decreases s.len() - j,
{
    if j < s.len() {
        assert(s.drop_last().take(j) == s.take(j));
        assert forall|k: int| j <= k < s.len() - 1 implies is_space_char(#[trigger] s.drop_last()[k]) by {
            assert(s.drop_last()[k] == s[k]);
        }
        lemma_trim_end_take(s.drop_last(), j);
        assert(is_space_char(s[s.len() - 1]));
    } else {
        assert(s.take(s.len() as int) == s);
    }
}

proof fn lemma_trim_start_shape(s: Seq<char>)
    ensures
        trim_start_seq(s).len() > 0 ==> !is_space_char(trim_start_seq(s)[0]),
        exists|i: int| 0 <= i <= s.len() && trim_start_seq(s) == #[trigger] s.skip(i),
    decreases s.len(),
{
    if s.len() > 0 && is_space_char(s[0]) {
        lemma_trim_start_shape(s.drop_first());
        let i = choose|i: int| 0 <= i <= s.drop_first().len() && trim_start_seq(s.drop_first()) == #[trigger] s.drop_first().skip(i);
        assert(s.drop_first().skip(i) == s.skip(i + 1));
    } else {
        assert(s.skip(0) == s);
    }
}

proof fn lemma_trim_end_shape(s: Seq<char>)
    ensures
        trim_end_seq(s).len() > 0 ==> !is_space_char(trim_end_seq(s).last()),
        exists|j: int| 0 <= j <= s.len() && trim_end_seq(s) == #[trigger] s.take(j),
    decreases s.len(),
{
    if s.len() > 0 && is_space_char(s.last()) {
        lemma_trim_end_shape(s.drop_last());
        let j = choose|j: int| 0 <= j <= s.drop_last().len() && trim_end_seq(s.drop_last()) == #[trigger] s.drop_last().take(j);
        assert(s.drop_last().take(j) == s.take(j));
    } else {
        assert(s.take(s.len() as int) == s);
    }
}

/// `trim_seq` leaves nothing to trim.
pub proof fn lemma_trim_is_trimmed(s: Seq<char>)
    ensures
        is_trimmed(trim_seq(s)),
{
    let t = trim_start_seq(s);
    lemma_trim_start_shape(s);
    lemma_trim_end_shape(t);
    let j = choose|j: int| 0 <= j <= t.len() && trim_end_seq(t) == #[trigger] t.take(j);
    if trim_seq(s).len() > 0 {
        assert(trim_seq(s)[0] == t[0]);
    }
}

/// Trimming text that has nothing to trim changes nothing.
pub proof fn lemma_trimmed_fixed(s: Seq<char>)
    requires
        is_trimmed(s),
    ensures
        trim_seq(s) == s,
{
    if s.len() > 0 {
        assert(trim_start_seq(s) == s);
        assert(trim_end_seq(s) == s);
    }
}

/// `s[from..to]` after trimming, as positions into `s`.
pub fn trim_range(s: &Vec<char>, from: usize, to: usize) -> (r: (usize, usize))
    requires
        from <= to <= s.len(),
    ensures
        from <= r.0 <= r.1 <= to,
        s@.subrange(r.0 as int, r.1 as int) == trim_seq(s@.subrange(from as int, to as int)),
{
    let ghost piece = s@.subrange(from as int, to as int);
    let mut i = from;
    while i < to && is_space(s[i])
        invariant
            from <= i <= to <= s.len(),
            piece == s@.subrange(from as int, to as int),
            forall|k: int| from <= k < i ==> is_space_char(#[trigger] s@[k]),
        decreases to - i,
    {
        i += 1;
    }
    proof {
        assert forall|k: int| 0 <= k < i - from implies is_space_char(#[trigger] piece[k]) by {
            assert(piece[k] == s@[from + k]);
        }
        lemma_trim_start_skip(piece, i - from);
        let rest = piece.skip(i - from);
        assert(rest == s@.subrange(i as int, to as int));
        if rest.len() > 0 {
            assert(rest[0] == s@[i as int]);
        }
        assert(trim_start_seq(rest) == rest);
    }
    let mut j = to;
    while j > i && is_space(s[j - 1])
        invariant
            from <= i <= j <= to <= s.len(),
            forall|k: int| j <= k < to ==> is_space_char(#[trigger] s@[k]),
        decreases j - i,
    {
        j -= 1;
    }
    proof {
        let rest = s@.subrange(i as int, to as int);
        assert forall|k: int| j - i <= k < rest.len() implies is_space_char(#[trigger] rest[k]) by {
            assert(rest[k] == s@[i + k]);
        }
        lemma_trim_end_take(rest, j - i);
        let kept = rest.take(j - i);
        assert(kept == s@.subrange(i as int, j as int));
        if kept.len() > 0 {
            assert(kept.last() == s@[j - 1]);
        }
        assert(trim_end_seq(kept) == kept);
    }
    (i, j)
}

/// Copy of `s[from..to]`.
pub fn slice_chars(s: &Vec<char>, from: usize, to: usize) -> (r: Vec<char>)
    requires
        from <= to <= s.len(),
    ensures
        r@ == s@.subrange(from as int, to as int),
{
    let mut r: Vec<char> = Vec::new();
    let mut k = from;
    while k < to
        invariant
            from <= k <= to <= s.len(),
            r@ == s@.subrange(from as int, k as int),
        decreases to - k,
    {
        proof {
            assert(s@.subrange(from as int, k + 1) == s@.subrange(from as int, k as int).push(s@[k as int]));
        }
        r.push(s[k]);
        k += 1;
    }
    r
}

/// What `str::trim` returns, as characters.
pub fn trim_chars(s: &Vec<char>) -> (r: Vec<char>)
    ensures
        r@ == trim_seq(s@),
{
    let (a, b) = trim_range(s, 0, s.len());
    proof {
        assert(s@.subrange(0, s@.len() as int) == s@);
    }
    slice_chars(s, a, b)
}


/// The white-space separated words of `s` (what `str::split_whitespace`
/// yields), described one character at a time from the end.
pub open spec fn words(s: Seq<char>) -> Seq<Seq<char>>
    decreases s.len(),
{
    if s.len() == 0 {
        seq![]
    } else {
        let w = words(s.drop_last());
        let c = s.last();
        if is_space_char(c) {
            w
        } else if s.len() >= 2 && !is_space_char(s[s.len() - 2]) {
            w.update(w.len() - 1, w.last().push(c))
        } else {
            w.push(seq![c])
        }
    }
}

/// The pieces of `ws` joined with `sep` between them (`[T]::join`).
pub open spec fn join(ws: Seq<Seq<char>>, sep: Seq<char>) -> Seq<char>
    decreases ws.len(),
{
    if ws.len() == 0 {
        seq![]
    } else if ws.len() == 1 {
        ws[0]
    } else {
        join(ws.drop_last(), sep) + sep + ws.last()
    }
}

/// The words of `s` joined by single spaces.
pub open spec fn normalize_text_spec(s: Seq<char>) -> Seq<char> {
    join(words(s), seq![' '])
}

/// A nonempty run of characters none of which is white space.
pub open spec fn is_word(w: Seq<char>) -> bool {
    w.len() > 0 && forall|k: int| 0 <= k < w.len() ==> !is_space_char(#[trigger] w[k])
}

/// Text in normal form: the only white space is single `' '` characters
/// standing between two other characters.
pub open spec fn is_normalized(t: Seq<char>) -> bool {
    forall|k: int|
        0 <= k < t.len() && is_space_char(#[trigger] t[k]) ==> {
            &&& t[k] == ' '
            &&& 0 < k < t.len() - 1
            &&& !is_space_char(t[k - 1])
            &&& !is_space_char(t[k + 1])
        }
}

proof fn lemma_words_last_nonspace(s: Seq<char>)
    requires
        s.len() > 0,
        !is_space_char(s.last()),
    ensures
        words(s).len() > 0,
        words(s).last().len() > 0,
        words(s).last().last() == s.last(),
    decreases s.len(),
{
    let w = words(s.drop_last());
    if s.len() >= 2 && !is_space_char(s[s.len() - 2]) {
        assert(s.drop_last().last() == s[s.len() - 2]);
        lemma_words_last_nonspace(s.drop_last());
    }
}

/// Every element of `words(s)` is a word.
pub proof fn lemma_words_are_words(s: Seq<char>)
    ensures
        forall|k: int| 0 <= k < words(s).len() ==> is_word(#[trigger] words(s)[k]),
    decreases s.len(),
{
    if s.len() > 0 {
        lemma_words_are_words(s.drop_last());
        let w = words(s.drop_last());
        let c = s.last();
        if !is_space_char(c) && s.len() >= 2 && !is_space_char(s[s.len() - 2]) {
            assert(s.drop_last().last() == s[s.len() - 2]);
            lemma_words_last_nonspace(s.drop_last());
            let nw = w.last().push(c);
            assert(is_word(w[w.len() - 1]));
            assert forall|k: int| 0 <= k < nw.len() implies !is_space_char(#[trigger] nw[k]) by {
                if k < nw.len() - 1 {
                    assert(nw[k] == w[w.len() - 1][k]);
                }
            }
        } else if !is_space_char(c) {
            let one = seq![c];
            assert(is_word(one));
            assert forall|k: int| 0 <= k < words(s).len() implies is_word(#[trigger] words(s)[k]) by {
                if k < w.len() {
                    assert(words(s)[k] == w[k]);
                }
            }
        }
    }
}

/// Appending a character to the last piece appends it to the joined text.
proof fn lemma_join_extend_last(ws: Seq<Seq<char>>, sep: Seq<char>, c: char)
    requires
        ws.len() > 0,
    ensures
        join(ws.update(ws.len() - 1, ws.last().push(c)), sep) == join(ws, sep).push(c),
{
    let nws = ws.update(ws.len() - 1, ws.last().push(c));
    if ws.len() > 1 {
        assert(nws.drop_last() == ws.drop_last());
        assert(join(ws, sep) + seq![c] == join(ws.drop_last(), sep) + sep + ws.last().push(c));
    }
}

/// Pushing a piece adds the separator and the piece.
pub proof fn lemma_join_push(ws: Seq<Seq<char>>, sep: Seq<char>, w: Seq<char>)
    ensures
        join(ws.push(w), sep) == if ws.len() == 0 {
            w
        } else {
            join(ws, sep) + sep + w
        },
{
    assert(ws.push(w).drop_last() == ws);
}

/// `str::split_whitespace` followed by `join(" ")` on the characters of `s`
/// (trimming the text and turning line breaks into spaces first would
/// change no word).
pub fn normalize_chars(s: &Vec<char>) -> (r: Vec<char>)
    ensures
        r@ == normalize_text_spec(s@),
{
    let mut out: Vec<char> = Vec::new();
    let mut have_word = false;
    let mut i: usize = 0;
    while i < s.len()
        invariant
            i <= s.len(),
            out@ == join(words(s@.take(i as int)), seq![' ']),
            have_word == (words(s@.take(i as int)).len() > 0),
        decreases s.len() - i,
    {
        let c = s[i];
        let ghost pre = s@.take(i as int);
        let ghost cur = s@.take(i + 1);
        proof {
            assert(cur.drop_last() == pre);
            assert(cur.last() == c);
            if i > 0 {
                assert(cur[cur.len() - 2] == s@[i - 1]);
            }
        }
        if is_space(c) {
        } else if i > 0 && !is_space(s[i - 1]) {
            proof {
                assert(pre.last() == s@[i - 1]);
                lemma_words_last_nonspace(pre);
                lemma_join_extend_last(words(pre), seq![' '], c);
            }
            out.push(c);
        } else {
            proof {
                lemma_join_push(words(pre), seq![' '], seq![c]);
            }
            if have_word {
                out.push(' ');
            }
            out.push(c);
            proof {
                if have_word {
                    assert(out@ == join(words(pre), seq![' ']) + seq![' '] + seq![c]);
                } else {
                    assert(out@ == seq![c]);
                }
            }
            have_word = true;
        }
        i += 1;
    }
    proof {
        assert(s@.take(s@.len() as int) == s@);
    }
    out
}

/// `words` of a single word is that word.
proof fn lemma_words_of_word(w: Seq<char>)
    requires
        is_word(w),
    ensures
        words(w) == seq![w],
    decreases w.len(),
{
    if w.len() == 1 {
        assert(w.drop_last() == Seq::<char>::empty());
        assert(!is_space_char(w[0]));
        assert(w.last() == w[0]);
        assert(seq![w[0]] == w);
        assert(words(w.drop_last()) == Seq::<Seq<char>>::empty());
        assert(words(w) == Seq::<Seq<char>>::empty().push(seq![w[0]]));
    } else {
        let p = w.drop_last();
        assert forall|k: int| 0 <= k < p.len() implies !is_space_char(#[trigger] p[k]) by {
            assert(p[k] == w[k]);
        }
        lemma_words_of_word(p);
        assert(w[w.len() - 1] == w.last());
        assert(!is_space_char(w[w.len() - 2]));
        assert(!is_space_char(w[w.len() - 1]));
        assert(p.push(w.last()) == w);
        assert(seq![p].update(0, p.push(w.last())) == seq![w]);
    }
}

/// A space then a word after some text adds exactly that word.
proof fn lemma_words_space_word(a: Seq<char>, w: Seq<char>)
    requires
        is_word(w),
    ensures
        words(a + seq![' '] + w) == words(a).push(w),
    decreases w.len(),
{
    let sp = a + seq![' '];
    assert(sp.drop_last() == a);
    assert(is_space_char(sp.last()));
    assert(words(sp) == words(a));
    let full = sp + w;
    if w.len() == 1 {
        assert(full.drop_last() == sp);
        assert(full.last() == w[0]);
        assert(full[full.len() - 2] == ' ');
        assert(seq![w[0]] == w);
    } else {
        let p = w.drop_last();
        assert forall|k: int| 0 <= k < p.len() implies !is_space_char(#[trigger] p[k]) by {
            assert(p[k] == w[k]);
        }
        lemma_words_space_word(a, p);
        assert(full.drop_last() == sp + p);
        assert(full.last() == w.last());
        assert(full[full.len() - 2] == w[w.len() - 2]);
        assert(!is_space_char(w[w.len() - 2]));
        assert(words(sp + p) == words(a).push(p));
        assert(words(a).push(p).update(words(a).len() as int, p.push(w.last())) == words(a).push(w)) by {
            assert(p.push(w.last()) == w);
        }
    }
}

/// Splitting words that were joined by single spaces gives them back.
pub proof fn lemma_words_of_join(ws: Seq<Seq<char>>)
    requires
        forall|k: int| 0 <= k < ws.len() ==> is_word(#[trigger] ws[k]),
    ensures
        words(join(ws, seq![' '])) == ws,
    decreases ws.len(),
{
    if ws.len() == 0 {
    } else if ws.len() == 1 {
        assert(is_word(ws[0]));
        lemma_words_of_word(ws[0]);
        assert(ws == seq![ws[0]]);
    } else {
        let p = ws.drop_last();
        assert forall|k: int| 0 <= k < p.len() implies is_word(#[trigger] p[k]) by {
            assert(p[k] == ws[k]);
        }
        lemma_words_of_join(p);
        assert(is_word(ws[ws.len() - 1]));
        lemma_words_space_word(join(p, seq![' ']), ws.last());
        assert(p.push(ws.last()) == ws);
    }
}

/// Words joined by single spaces are in normal form.
pub proof fn lemma_join_words_normalized(ws: Seq<Seq<char>>)
    requires
        forall|k: int| 0 <= k < ws.len() ==> is_word(#[trigger] ws[k]),
    ensures
        is_normalized(join(ws, seq![' '])),
        ws.len() > 0 ==> join(ws, seq![' ']).len() > 0,
    decreases ws.len(),
{
    let t = join(ws, seq![' ']);
    if ws.len() == 1 {
        assert(is_word(ws[0]));
    } else if ws.len() > 1 {
        let p = ws.drop_last();
        assert forall|k: int| 0 <= k < p.len() implies is_word(#[trigger] p[k]) by {
            assert(p[k] == ws[k]);
        }
        lemma_join_words_normalized(p);
        let a = join(p, seq![' ']);
        let w = ws.last();
        assert(is_word(ws[ws.len() - 1]));
        assert(t == a + seq![' '] + w);
        assert forall|k: int| 0 <= k < t.len() && is_space_char(#[trigger] t[k]) implies {
            &&& t[k] == ' '
            &&& 0 < k < t.len() - 1
            &&& !is_space_char(t[k - 1])
            &&& !is_space_char(t[k + 1])
        } by {
            if k < a.len() {
                assert(t[k] == a[k]);
                assert(t[k + 1] == if k + 1 < a.len() { a[k + 1] } else { ' ' });
                if k + 1 == a.len() {
                    assert(!is_space_char(a[k]));
                }
                if k > 0 {
                    assert(t[k - 1] == a[k - 1]);
                }
            } else if k == a.len() {
                assert(t[k + 1] == w[0]);
                assert(t[k - 1] == a[a.len() - 1]);
                assert(!is_space_char(a[a.len() - 1])) by {
                    assert(!is_space_char(p[p.len() - 1].last())) by {
                        assert(is_word(p[p.len() - 1]));
                    }
                    lemma_join_last(p);
                }
            } else {
                assert(t[k] == w[k - a.len() - 1]);
            }
        }
    }
}

/// The joined text ends with the last piece's last character.
proof fn lemma_join_last(ws: Seq<Seq<char>>)
    requires
        ws.len() > 0,
        ws.last().len() > 0,
    ensures
        join(ws, seq![' ']).len() > 0,
        join(ws, seq![' ']).last() == ws.last().last(),
{
}

/// Text normalisation: the white-space separated words of
/// `text` joined by single spaces.
pub fn normalize_text(text: &str) -> (r: String)
    ensures
        r@ == normalize_text_spec(text@),
{
    let v = chars_of(text);
    let n = normalize_chars(&v);
    string_of(&n)
}

/// Normalised text is in normal form, and normalising again changes nothing.
pub proof fn lemma_normalize_text(s: Seq<char>)
    ensures
        is_normalized(normalize_text_spec(s)),
        normalize_text_spec(normalize_text_spec(s)) == normalize_text_spec(s),
{
    lemma_words_are_words(s);
    lemma_join_words_normalized(words(s));
    lemma_words_of_join(words(s));
}


/// The pieces of `s` between occurrences of `sep` (`str::split` on a
/// character): `n` separators give `n + 1` pieces.
pub open spec fn split_seq(s: Seq<char>, sep: char) -> Seq<Seq<char>>
    decreases s.len(),
{
    if s.len() == 0 {
        seq![seq![]]
    } else {
        let p = split_seq(s.drop_last(), sep);
        if s.last() == sep {
            p.push(seq![])
        } else {
            p.update(p.len() - 1, p.last().push(s.last()))
        }
    }
}

proof fn lemma_split_nonempty(s: Seq<char>, sep: char)
    ensures
        split_seq(s, sep).len() >= 1,
    decreases s.len(),
{
    if s.len() > 0 {
        lemma_split_nonempty(s.drop_last(), sep);
    }
}

/// Whether a piece is kept after trimming.
pub open spec fn nonempty_piece(t: Seq<char>) -> bool {
    t.len() > 0
}

/// Tags of a comma separated list: each piece trimmed, empty ones dropped.
pub open spec fn parse_tags_spec(s: Seq<char>) -> Seq<Seq<char>> {
    split_seq(s, ',').map_values(|p: Seq<char>| trim_seq(p)).filter(|t: Seq<char>| nonempty_piece(t))
}

/// Tags parsed from a comma list: split on `,`, trim each piece, keep
/// the nonempty ones, in order.
pub fn parse_tags(tags: &str) -> (r: Vec<String>)
    ensures
        r@.map_values(|t: String| t@) == parse_tags_spec(tags@),
{
    let s = chars_of(tags);
    let mut out: Vec<String> = Vec::new();
    let mut start: usize = 0;
    let mut i: usize = 0;
    let ghost trim_fn = |p: Seq<char>| trim_seq(p);
    let ghost keep_fn = |t: Seq<char>| nonempty_piece(t);
    while i < s.len()
        invariant
            start <= i <= s.len(),
            trim_fn == (|p: Seq<char>| trim_seq(p)),
            keep_fn == (|t: Seq<char>| nonempty_piece(t)),
            split_seq(s@.take(i as int), ',').len() >= 1,
            split_seq(s@.take(i as int), ',').last() == s@.subrange(start as int, i as int),
            out@.map_values(|t: String| t@) == split_seq(s@.take(i as int), ',').drop_last().map_values(trim_fn).filter(keep_fn),
        decreases s.len() - i,
    {
        let ghost pre = s@.take(i as int);
        let ghost cur = s@.take(i + 1);
        let ghost sp = split_seq(pre, ',');
        proof {
            assert(cur.drop_last() == pre);
            assert(cur.last() == s@[i as int]);
        }
        if s[i] == ',' {
            let (a, b) = trim_range(&s, start, i);
            let piece = slice_chars(&s, a, b);
            let ghost old_out = out@.map_values(|t: String| t@);
            proof {
                assert(split_seq(cur, ',') == sp.push(seq![]));
                assert(split_seq(cur, ',').drop_last() == sp);
                assert(sp == sp.drop_last().push(sp.last()));
                sp.drop_last().lemma_push_map_commute(trim_fn, sp.last());
                sp.drop_last().map_values(trim_fn).lemma_filter_push(trim_fn(sp.last()), keep_fn);
            }
            if b > a {
                out.push(string_of(&piece));
                proof {
                    assert(out@.map_values(|t: String| t@) == old_out.push(piece@));
                }
            }
            start = i + 1;
            proof {
                assert(s@.subrange(start as int, i + 1) == Seq::<char>::empty());
            }
        } else {
            proof {
                lemma_split_nonempty(pre, ',');
                assert(split_seq(cur, ',') == sp.update(sp.len() - 1, sp.last().push(s@[i as int])));
                assert(split_seq(cur, ',').drop_last() == sp.drop_last());
                assert(s@.subrange(start as int, i + 1) == s@.subrange(start as int, i as int).push(s@[i as int]));
            }
        }
        i += 1;
    }
    let (a, b) = trim_range(&s, start, s.len());
    let piece = slice_chars(&s, a, b);
    let ghost sp = split_seq(s@, ',');
    let ghost old_out = out@.map_values(|t: String| t@);
    proof {
        assert(s@.take(s@.len() as int) == s@);
        assert(sp == sp.drop_last().push(sp.last()));
        sp.drop_last().lemma_push_map_commute(trim_fn, sp.last());
        sp.drop_last().map_values(trim_fn).lemma_filter_push(trim_fn(sp.last()), keep_fn);
    }
    if b > a {
        out.push(string_of(&piece));
        proof {
            assert(out@.map_values(|t: String| t@) == old_out.push(piece@));
        }
    }
    out
}

/// `s` with every non-overlapping occurrence of `pat`, scanning from the
/// left, replaced by `rep` (`str::replace`).
pub open spec fn replace_seq(s: Seq<char>, pat: Seq<char>, rep: Seq<char>) -> Seq<char>
    decreases s.len(),
{
    if s.len() == 0 || pat.len() == 0 {
        s
    } else if pat.len() <= s.len() && s.take(pat.len() as int) == pat {
        rep + replace_seq(s.skip(pat.len() as int), pat, rep)
    } else {
        seq![s[0]] + replace_seq(s.drop_first(), pat, rep)
    }
}

/// Whether `pat` occurs in `s` at position `i`.
pub fn matches_at(s: &Vec<char>, i: usize, pat: &Vec<char>) -> (b: bool)
    requires
        i <= s.len(),
    ensures
        b == (pat.len() <= s.len() - i && s@.subrange(i as int, i + pat.len()) == pat@),
{
    if pat.len() > s.len() - i {
        return false;
    }
    let mut k: usize = 0;
    while k < pat.len()
        invariant
            k <= pat.len() <= s.len() - i,
            forall|j: int| 0 <= j < k ==> s@[i + j] == pat@[j],
        decreases pat.len() - k,
    {
        if s[i + k] != pat[k] {
            proof {
                assert(s@.subrange(i as int, i + pat.len())[k as int] == s@[i + k]);
            }
            return false;
        }
        k += 1;
    }
    proof {
        assert(s@.subrange(i as int, i + pat.len()) == pat@);
    }
    true
}

/// `str::replace` with a nonempty literal pattern, on characters.
pub fn replace_chars(s: &Vec<char>, pat: &Vec<char>, rep: &Vec<char>) -> (r: Vec<char>)
    requires
        pat.len() > 0,
    ensures
        r@ == replace_seq(s@, pat@, rep@),
{
    let mut out: Vec<char> = Vec::new();
    let mut i: usize = 0;
    proof {
        assert(s@.skip(0) == s@);
    }
    while i < s.len()
        invariant
            i <= s.len(),
            pat.len() > 0,
            replace_seq(s@, pat@, rep@) == out@ + replace_seq(s@.skip(i as int), pat@, rep@),
        decreases s.len() - i,
    {
        let ghost rest = s@.skip(i as int);
        if matches_at(s, i, pat) {
            proof {
                assert(rest.take(pat.len() as int) == s@.subrange(i as int, i + pat.len()));
                assert(rest.skip(pat.len() as int) == s@.skip(i + pat.len()));
            }
            let mut k: usize = 0;
            let ghost before = out@;
            while k < rep.len()
                invariant
                    k <= rep.len(),
                    out@ == before + rep@.take(k as int),
                decreases rep.len() - k,
            {
                proof {
                    assert(rep@.take(k + 1) == rep@.take(k as int).push(rep@[k as int]));
                }
                out.push(rep[k]);
                k += 1;
            }
            proof {
                assert(rep@.take(rep.len() as int) == rep@);
                assert(out@ + replace_seq(s@.skip(i + pat.len()), pat@, rep@) == before + (rep@ + replace_seq(s@.skip(i + pat.len()), pat@, rep@)));
            }
            i = i + pat.len();
        } else {
            proof {
                if pat.len() <= rest.len() {
                    assert(rest.take(pat.len() as int) == s@.subrange(i as int, i + pat.len()));
                }
                assert(rest[0] == s@[i as int]);
                assert(rest.drop_first() == s@.skip(i + 1));
                assert(out@.push(s@[i as int]) + replace_seq(s@.skip(i + 1), pat@, rep@) == out@ + (seq![s@[i as int]] + replace_seq(s@.skip(i + 1), pat@, rep@)));
            }
            out.push(s[i]);
            i += 1;
        }
    }
    proof {
        assert(s@.skip(s@.len() as int).len() == 0);
    }
    out
}

/// Whether `sub` occurs somewhere in `s`.
pub open spec fn contains_seq(s: Seq<char>, sub: Seq<char>) -> bool {
    exists|i: int| 0 <= i <= s.len() - sub.len() && #[trigger] s.subrange(i, i + sub.len()) == sub
}

/// `str::contains` with a literal pattern.
pub fn contains_chars(s: &Vec<char>, sub: &Vec<char>) -> (b: bool)
    ensures
        b == contains_seq(s@, sub@),
{
    if sub.len() > s.len() {
        return false;
    }
    if sub.len() == 0 {
        proof {
            assert(s@.subrange(0int, 0int + sub@.len()) == sub@);
        }
        return true;
    }
    let mut i: usize = 0;
    while i <= s.len() - sub.len()
        invariant
            0 < sub.len() <= s.len(),
            i <= s.len() - sub.len() + 1,
            forall|j: int| 0 <= j < i ==> #[trigger] s@.subrange(j, j + sub.len()) != sub@,
        decreases s.len() - sub.len() + 1 - i,
    {
        if matches_at(s, i, sub) {
            return true;
        }
        i += 1;
    }
    false
}

/// `str::contains` with a literal pattern, on strings.
pub fn str_contains(s: &str, sub: &str) -> (b: bool)
    ensures
        b == contains_seq(s@, sub@),
{
    contains_chars(&chars_of(s), &chars_of(sub))
}

/// Whether `s` begins with `p`.
pub open spec fn starts_with_seq(s: Seq<char>, p: Seq<char>) -> bool {
    p.len() <= s.len() && s.take(p.len() as int) == p
}

/// Whether `s` ends with `p`.
pub open spec fn ends_with_seq(s: Seq<char>, p: Seq<char>) -> bool {
    p.len() <= s.len() && s.skip(s.len() - p.len()) == p
}

/// `str::starts_with` with a literal pattern.
pub fn str_starts_with(s: &str, p: &str) -> (b: bool)
    ensures
        b == starts_with_seq(s@, p@),
{
    let sv = chars_of(s);
    let pv = chars_of(p);
    let b = matches_at(&sv, 0, &pv);
    proof {
        if pv.len() <= sv.len() {
            assert(sv@.subrange(0, pv.len() as int) == sv@.take(pv.len() as int));
        }
    }
    b
}

/// `str::ends_with` with a literal pattern.
pub fn str_ends_with(s: &str, p: &str) -> (b: bool)
    ensures
        b == ends_with_seq(s@, p@),
{
    let sv = chars_of(s);
    let pv = chars_of(p);
    if pv.len() > sv.len() {
        return false;
    }
    let b = matches_at(&sv, sv.len() - pv.len(), &pv);
    proof {
        assert(sv@.subrange(sv.len() - pv.len(), sv.len() as int) == sv@.skip(sv.len() - pv.len()));
    }
    b
}

/// `s` with every trailing `c` removed (`str::trim_end_matches` on a char).
pub open spec fn trim_end_char_seq(s: Seq<char>, c: char) -> Seq<char>
    decreases s.len(),
{
    if s.len() > 0 && s.last() == c {
        trim_end_char_seq(s.drop_last(), c)
    } else {
        s
    }
}

/// `str::trim_end_matches` with a single character.
pub fn trim_end_char(s: &str, c: char) -> (r: String)
    ensures
        r@ == trim_end_char_seq(s@, c),
{
    let v = chars_of(s);
    let mut j = v.len();
    proof {
        assert(v@.take(v@.len() as int) == v@);
    }
    while j > 0 && v[j - 1] == c
        invariant
            j <= v.len(),
            trim_end_char_seq(v@, c) == trim_end_char_seq(v@.take(j as int), c),
        decreases j,
    {
        proof {
            let t = v@.take(j as int);
            assert(t.last() == v@[j - 1]);
            assert(t.drop_last() == v@.take(j - 1));
        }
        j -= 1;
    }
    let kept = slice_chars(&v, 0, j);
    proof {
        assert(v@.subrange(0, j as int) == v@.take(j as int));
        assert(v@.take(v@.len() as int) == v@);
        if j > 0 {
            assert(v@.take(j as int).last() == v@[j - 1]);
        }
    }
    string_of(&kept)
}

/// Whether two strings hold the same characters.
pub fn str_eq(a: &str, b: &str) -> (r: bool)
    ensures
        r == (a@ == b@),
{
    let av = chars_of(a);
    let bv = chars_of(b);
    if av.len() != bv.len() {
        return false;
    }
    let r = matches_at(&av, 0, &bv);
    proof {
        assert(av@.subrange(0, bv.len() as int) == av@);
    }
    r
}

/// The characters of a string that is a copy of `s`.
pub fn copy_str(s: &str) -> (r: String)
    ensures
        r@ == s@,
{
    string_of(&chars_of(s))
}

/// `a` followed by `b`.
pub fn concat_str(a: &str, b: &str) -> (r: String)
    ensures
        r@ == a@ + b@,
{
    let mut r = copy_str(a);
    r.append(b);
    r
}

/// What `str::to_lowercase` returns for `s`.
pub uninterp spec fn lowercase_of(s: Seq<char>) -> Seq<char>;

/// What `str::to_uppercase` returns for `s`.
pub uninterp spec fn uppercase_of(s: Seq<char>) -> Seq<char>;

/// Every character is ASCII.
pub open spec fn is_ascii_seq(s: Seq<char>) -> bool {
    forall|k: int| 0 <= k < s.len() ==> (#[trigger] s[k] as u32) < 0x80
}

/// ASCII upper case of one character.
pub open spec fn ascii_upper(c: char) -> char {
    if 'a' <= c && c <= 'z' {
        ((c as u32) - 32) as char
    } else {
        c
    }
}

/// ASCII lower case of one character.
pub open spec fn ascii_lower(c: char) -> char {
    if 'A' <= c && c <= 'Z' {
        ((c as u32) + 32) as char
    } else {
        c
    }
}

/// `str::to_lowercase`. Its result is named; the contract also states what
/// the documentation gives for ASCII text: each letter is mapped to its ASCII
/// lower case and nothing else changes. What it does to other characters
/// (full Unicode case mapping) is not stated.
#[verifier::external_body]
pub(crate) fn to_lowercase(s: &str) -> (r: String)
    ensures
        r@ == lowercase_of(s@),
        is_ascii_seq(s@) ==> r@ == s@.map_values(|c: char| ascii_lower(c)),
{
    s.to_lowercase()
}

/// `str::to_uppercase`. Its result is named; the contract also states what
/// the documentation gives for ASCII text: each letter is mapped to its ASCII
/// upper case and nothing else changes. What it does to other characters
/// (full Unicode case mapping) is not stated.
#[verifier::external_body]
pub(crate) fn to_uppercase(s: &str) -> (r: String)
    ensures
        r@ == uppercase_of(s@),
        is_ascii_seq(s@) ==> r@ == s@.map_values(|c: char| ascii_upper(c)),
{
    s.to_uppercase()
}

} // verus!
