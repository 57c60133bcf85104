//! Text operations on strings seen as sequences of characters.

use vstd::prelude::*;

verus! {

// ---------------------------------------------------------------------------
// Views of collections of strings
// ---------------------------------------------------------------------------

/// The characters of every string of `v`, in order.
pub open spec fn texts(v: Seq<String>) -> Seq<Seq<char>> {
    v.map_values(|s: String| s@)
}

/// The characters of an optional string.
pub open spec fn opt_text(o: Option<String>) -> Option<Seq<char>> {
    match o {
        Some(s) => Some(s@),
        None => None,
    }
}

/// The characters of a doubly optional string.
pub open spec fn opt_opt_text(o: Option<Option<String>>) -> Option<Option<Seq<char>>> {
    match o {
        Some(s) => Some(opt_text(s)),
        None => None,
    }
}

/// Equality of two optional strings, by their characters.
pub fn same_opt(a: &Option<String>, b: &Option<String>) -> (r: bool)
    ensures
        r == (opt_text(*a) == opt_text(*b)),
{
    match (a, b) {
        (Some(x), Some(y)) => *x == *y,
        (None, None) => true,
        _ => false,
    }
}

/// A copy of an optional string.
pub fn copy_opt(a: &Option<String>) -> (r: Option<String>)
    ensures
        opt_text(r) == opt_text(*a),
{
    match a {
        Some(x) => Some(x.clone()),
        None => None,
    }
}

/// A copy of a doubly optional string.
pub fn copy_opt_opt(a: &Option<Option<String>>) -> (r: Option<Option<String>>)
    ensures
        opt_opt_text(r) == opt_opt_text(*a),
{
    match a {
        Some(x) => Some(copy_opt(x)),
        None => None,
    }
}

/// A copy of a list of strings.
pub fn copy_texts(v: &Vec<String>) -> (r: Vec<String>)
    ensures
        texts(r@) == texts(v@),
{
    let mut out: Vec<String> = Vec::new();
    for i in 0..v.len()
        invariant
            texts(out@) == texts(v@).take(i as int),
            out@.len() == i,
    {
        out.push(v[i].clone());
        assert(texts(out@) =~= texts(v@).take(i + 1));
    }
    assert(texts(v@).take(v@.len() as int) =~= texts(v@));
    out
}

/// Whether a list of strings holds a string with the characters of `s`.
pub fn contains_text(v: &Vec<String>, s: &String) -> (r: bool)
    ensures
        r == texts(v@).contains(s@),
{
    for i in 0..v.len()
        invariant
            forall|j: int| 0 <= j < i ==> texts(v@)[j] != s@,
    {
        if v[i] == *s {
            assert(texts(v@)[i as int] == s@);
            return true;
        }
    }
    false
}

// ---------------------------------------------------------------------------
// Characters
// ---------------------------------------------------------------------------

/// `String::push` appends one character.
pub assume_specification[ String::push ](s: &mut String, ch: char)
    ensures
        final(s)@ == old(s)@.push(ch),
;

/// The characters of a string slice, as a vector.
pub fn chars_of(s: &str) -> (r: Vec<char>)
    ensures
        r@ == s@,
{
    let mut out: Vec<char> = Vec::new();
    for c in it: s.chars()
        invariant
            out@ == s@.take(it.index()),
            it.seq() == s@,
    {
        out.push(c);
        assert(out@ =~= s@.take(it.index() + 1));
    }
    assert(s@.take(s@.len() as int) =~= s@);
    out
}

/// A string made of the characters `v[from..to]`.
pub fn string_of(v: &Vec<char>, from: usize, to: usize) -> (r: String)
    requires
        from <= to <= v@.len(),
    ensures
        r@ == v@.subrange(from as int, to as int),
{
    let mut out = String::new();
    for i in from..to
        invariant
            from <= to <= v@.len(),
            out@ == v@.subrange(from as int, i as int),
    {
        out.push(v[i]);
        assert(out@ =~= v@.subrange(from as int, i + 1));
    }
    out
}

/// The Unicode `White_Space` property.
pub open spec fn is_white(c: char) -> bool {
    ||| '\u{9}' <= c <= '\u{d}'
    ||| c == ' '
    ||| c == '\u{85}'
    ||| c == '\u{a0}'
    ||| c == '\u{1680}'
    ||| '\u{2000}' <= c <= '\u{200a}'
    ||| c == '\u{2028}'
    ||| c == '\u{2029}'
    ||| c == '\u{202f}'
    ||| c == '\u{205f}'
    ||| c == '\u{3000}'
}

/// Whether `c` has the Unicode `White_Space` property.
pub fn is_white_char(c: char) -> (r: bool)
    ensures
        r == is_white(c),
{
    ('\u{9}' <= c && c <= '\u{d}') || c == ' ' || c == '\u{85}' || c == '\u{a0}' || c
        == '\u{1680}' || ('\u{2000}' <= c && c <= '\u{200a}') || c == '\u{2028}' || c
        == '\u{2029}' || c == '\u{202f}' || c == '\u{205f}' || c == '\u{3000}'
}

// ---------------------------------------------------------------------------
// Words
// ---------------------------------------------------------------------------

/// How many characters stand before the first white-space character of `s`.
pub open spec fn word_len(s: Seq<char>) -> nat
    decreases s.len(),
{
    if s.len() == 0 || is_white(s[0]) {
        0
    } else {
        1 + word_len(s.skip(1))
    }
}

/// The words of `s`: its maximal runs of characters that are not white space,
/// in order.
pub open spec fn words(s: Seq<char>) -> Seq<Seq<char>>
    decreases s.len(),
{
    if s.len() == 0 {
        Seq::empty()
    } else if is_white(s[0]) {
        words(s.skip(1))
    } else {
        let n = word_len(s);
        if 0 < n <= s.len() {
            seq![s.take(n as int)] + words(s.skip(n as int))
        } else {
            Seq::empty()
        }
    }
}

pub proof fn lemma_word_len(s: Seq<char>)
    ensures
        word_len(s) <= s.len(),
        forall|i: int| 0 <= i < word_len(s) ==> !is_white(#[trigger] s[i]),
        word_len(s) < s.len() ==> is_white(s[word_len(s) as int]),
    decreases s.len(),
{
    if s.len() > 0 && !is_white(s[0]) {
        lemma_word_len(s.skip(1));
        let n = word_len(s.skip(1));
        assert forall|i: int| 0 <= i < word_len(s) implies !is_white(#[trigger] s[i]) by {
            if i > 0 {
                assert(s[i] == s.skip(1)[i - 1]);
            }
        }
        if n + 1 < s.len() {
            assert(s.skip(1)[n as int] == s[n as int + 1]);
        }
    }
}

/// A run of `n` characters without white space, followed by white space or the
/// end, is the first word.
proof fn lemma_word_len_is(s: Seq<char>, n: int)
    requires
        0 <= n <= s.len(),
        forall|i: int| 0 <= i < n ==> !is_white(#[trigger] s[i]),
        n < s.len() ==> is_white(s[n]),
    ensures
        word_len(s) == n,
    decreases s.len(),
{
    if n > 0 {
        assert forall|i: int| 0 <= i < n - 1 implies !is_white(#[trigger] s.skip(1)[i]) by {
            assert(s.skip(1)[i] == s[i + 1]);
        }
        if n < s.len() {
            assert(s.skip(1)[n - 1] == s[n]);
        }
        lemma_word_len_is(s.skip(1), n - 1);
    }
}

/// The words of two texts with white space between them are those of the first,
/// then those of the second.
pub proof fn lemma_words_split(a: Seq<char>, c: char, b: Seq<char>)
    requires
        is_white(c),
    ensures
        words(a.push(c) + b) == words(a) + words(b),
    decreases a.len(),
{
    let s = a.push(c) + b;
    if a.len() == 0 {
        assert(s.skip(1) =~= b);
        assert(words(a) + words(b) =~= words(b));
    } else if is_white(a[0]) {
        assert(s.skip(1) =~= a.skip(1).push(c) + b);
        lemma_words_split(a.skip(1), c, b);
    } else {
        let n = word_len(a) as int;
        lemma_word_len(a);
        assert forall|i: int| 0 <= i < n implies !is_white(#[trigger] s[i]) by {
            assert(s[i] == a[i]);
        }
        assert(is_white(s[n]));
        lemma_word_len_is(s, n);
        assert(s.take(n) =~= a.take(n));
        assert(s.skip(n) =~= a.skip(n).push(c) + b);
        assert(word_len(a) == 1 + word_len(a.skip(1)));
        lemma_words_split(a.skip(n), c, b);
        assert(words(s) =~= words(a) + words(b));
    }
}

/// A text without white space is its only word.
pub proof fn lemma_words_single(w: Seq<char>)
    requires
        w.len() > 0,
        forall|i: int| 0 <= i < w.len() ==> !is_white(#[trigger] w[i]),
    ensures
        words(w) == seq![w],
{
    lemma_word_len_is(w, w.len() as int);
    assert(w.take(w.len() as int) =~= w);
    assert(w.skip(w.len() as int) =~= Seq::<char>::empty());
    assert(words(w.skip(w.len() as int)) == Seq::<Seq<char>>::empty());
    assert(!is_white(w[0]));
    assert(words(w) =~= seq![w]);
}

/// Words are not empty and hold no white space.
pub proof fn lemma_words_clean(s: Seq<char>, k: int)
    requires
        0 <= k < words(s).len(),
    ensures
        words(s)[k].len() > 0,
        forall|i: int| 0 <= i < words(s)[k].len() ==> !is_white(#[trigger] words(s)[k][i]),
    decreases s.len(),
{
    if is_white(s[0]) {
        lemma_words_clean(s.skip(1), k);
    } else {
        let n = word_len(s) as int;
        lemma_word_len(s);
        if k > 0 {
            assert(words(s)[k] == words(s.skip(n))[k - 1]);
            lemma_words_clean(s.skip(n), k - 1);
        } else {
            assert(words(s)[0] == s.take(n));
        }
    }
}

/// The words of all texts of a list, in order.
pub open spec fn all_words(v: Seq<Seq<char>>) -> Seq<Seq<char>>
    decreases v.len(),
{
    if v.len() == 0 {
        Seq::empty()
    } else {
        all_words(v.drop_last()) + words(v.last())
    }
}

/// The words of texts with spaces between them are those of all the texts.
pub proof fn lemma_words_join(v: Seq<Seq<char>>)
    ensures
        words(join(v, " "@)) == all_words(v),
    decreases v.len(),
{
    reveal_strlit(" ");
    if v.len() == 1 {
        assert(all_words(v.drop_last()) =~= Seq::<Seq<char>>::empty());
        assert(v.last() == v[0]);
        assert(all_words(v) =~= words(v[0]));
    } else if v.len() > 1 {
        let front = join(v.drop_last(), " "@);
        lemma_words_join(v.drop_last());
        assert(front + " "@ + v.last() =~= front.push(' ') + v.last());
        lemma_words_split(front, ' ', v.last());
    }
}

/// Words are the words of the list that they make up.
pub proof fn lemma_all_words(v: Seq<Seq<char>>)
    requires
        forall|k: int| 0 <= k < v.len() ==> words(#[trigger] v[k]) == seq![v[k]],
    ensures
        all_words(v) == v,
    decreases v.len(),
{
    if v.len() > 0 {
        assert forall|k: int| 0 <= k < v.drop_last().len() implies words(
            #[trigger] v.drop_last()[k],
        ) == seq![v.drop_last()[k]] by {
            assert(v.drop_last()[k] == v[k]);
        }
        lemma_all_words(v.drop_last());
        assert(v[v.len() - 1] == v.last());
        assert(all_words(v) =~= v);
    }
}

/// The words of two lists are those of the first, then those of the second.
pub proof fn lemma_all_words_add(a: Seq<Seq<char>>, b: Seq<Seq<char>>)
    ensures
        all_words(a + b) == all_words(a) + all_words(b),
    decreases b.len(),
{
    if b.len() == 0 {
        assert(a + b =~= a);
        assert(all_words(a) + all_words(b) =~= all_words(a));
    } else {
        assert((a + b).drop_last() =~= a + b.drop_last());
        lemma_all_words_add(a, b.drop_last());
        assert(all_words(a + b) =~= all_words(a) + all_words(b));
    }
}

/// Sifting twice is sifting by the narrower test, where that implies the wider one.
pub proof fn lemma_sift_twice(
    v: Seq<Seq<char>>,
    wide: spec_fn(Seq<char>) -> bool,
    narrow: spec_fn(Seq<char>) -> bool,
)
    requires
        forall|w: Seq<char>| #[trigger] narrow(w) ==> wide(w),
    ensures
        v.filter(wide).filter(narrow) == v.filter(narrow),
    decreases v.len(),
{
    reveal(Seq::filter);
    if v.len() > 0 {
        let front = v.drop_last();
        lemma_sift_twice(front, wide, narrow);
        let w = v.last();
        if wide(w) {
            let kept = front.filter(wide).push(w);
            assert(kept.drop_last() =~= front.filter(wide));
            assert(kept.last() == w);
        }
    }
}

/// The words of `s`, split at white space.
pub fn split_words(s: &str) -> (r: Vec<String>)
    ensures
        texts(r@) == words(s@),
{
    let cs = chars_of(s);
    let n: usize = cs.len();
    let mut out: Vec<String> = Vec::new();
    let mut i: usize = 0;
    assert(s@.skip(0) =~= s@);
    assert(texts(out@) + words(s@.skip(0)) =~= words(s@));
    while i < n
        invariant
            cs@ == s@,
            n == s@.len(),
            i <= n,
            texts(out@) + words(s@.skip(i as int)) == words(s@),
        decreases n - i,
    {
        let ghost rest = s@.skip(i as int);
        if is_white_char(cs[i]) {
            assert(rest.skip(1) =~= s@.skip(i + 1));
            i = i + 1;
        } else {
            let start: usize = i;
            let ghost before = texts(out@);
            while i < n && !is_white_char(cs[i])
                invariant
                    cs@ == s@,
                    n == s@.len(),
                    start <= i <= n,
                    forall|j: int| start <= j < i ==> !is_white(#[trigger] s@[j]),
                decreases n - i,
            {
                i = i + 1;
            }
            assert(i > start);
            out.push(string_of(&cs, start, i));
            proof {
                let len = i - start;
                assert forall|j: int| 0 <= j < len implies !is_white(#[trigger] rest[j]) by {
                    assert(rest[j] == s@[start + j]);
                }
                lemma_word_len_is(rest, len);
                assert(rest.take(len) =~= s@.subrange(start as int, i as int));
                assert(rest.skip(len) =~= s@.skip(i as int));
                assert(texts(out@) =~= before.push(rest.take(len)));
                assert(before.push(rest.take(len)) + words(s@.skip(i as int)) =~= before + (seq![
                    rest.take(len),
                ] + words(rest.skip(len))));
            }
        }
    }
    assert(s@.skip(n as int) =~= Seq::<char>::empty());
    assert(texts(out@) =~= words(s@));
    out
}

/// The parts of `v` with `sep` between neighbours.
pub open spec fn join(v: Seq<Seq<char>>, sep: Seq<char>) -> Seq<char>
    decreases v.len(),
{
    if v.len() == 0 {
        Seq::empty()
    } else if v.len() == 1 {
        v[0]
    } else {
        join(v.drop_last(), sep) + sep + v.last()
    }
}

/// A part with others behind it stands before them.
pub proof fn lemma_join_front(h: Seq<char>, v: Seq<Seq<char>>)
    requires
        v.len() > 0,
    ensures
        join(seq![h] + v, " "@) == h.push(' ') + join(v, " "@),
    decreases v.len(),
{
    reveal_strlit(" ");
    let all = seq![h] + v;
    assert(all.last() == v.last());
    if v.len() == 1 {
        assert(all.drop_last() =~= seq![h]);
        assert(join(seq![h], " "@) == h);
        assert(join(all, " "@) =~= h.push(' ') + v[0]);
    } else {
        assert(all.drop_last() =~= seq![h] + v.drop_last());
        lemma_join_front(h, v.drop_last());
        assert(join(all, " "@) =~= h.push(' ') + join(v, " "@));
    }
}

/// Whether all white space in a text is spaces.
pub open spec fn only_spaces(s: Seq<char>) -> bool {
    forall|i: int| 0 <= i < s.len() && is_white(#[trigger] s[i]) ==> s[i] == ' '
}

/// Texts with spaces between them have no other white space, where none of them has.
pub proof fn lemma_join_spaces(v: Seq<Seq<char>>)
    requires
        forall|k: int| 0 <= k < v.len() ==> only_spaces(#[trigger] v[k]),
    ensures
        only_spaces(join(v, " "@)),
    decreases v.len(),
{
    reveal_strlit(" ");
    if v.len() > 0 {
        assert(only_spaces(v[0]));
        assert(only_spaces(v[v.len() - 1]));
        let front = v.drop_last();
        assert forall|k: int| 0 <= k < front.len() implies only_spaces(#[trigger] front[k]) by {
            assert(front[k] == v[k]);
        }
        lemma_join_spaces(front);
        let s = join(v, " "@);
        let a = join(front, " "@);
        if v.len() > 1 {
            assert forall|i: int| 0 <= i < s.len() && is_white(#[trigger] s[i]) implies s[i]
                == ' ' by {
                if i < a.len() {
                    assert(s[i] == a[i]);
                } else if i > a.len() {
                    assert(s[i] == v[v.len() - 1][i - a.len() - 1]);
                }
            }
        }
    }
}

/// The pieces of all texts of a list, in order.
pub open spec fn all_pieces(v: Seq<Seq<char>>) -> Seq<Seq<char>>
    decreases v.len(),
{
    if v.len() == 0 {
        Seq::empty()
    } else {
        all_pieces(v.drop_last()) + split(v.last(), ' ')
    }
}

/// The pieces of texts with spaces between them are those of all the texts.
pub proof fn lemma_pieces_join(v: Seq<Seq<char>>)
    requires
        v.len() > 0,
    ensures
        split(join(v, " "@), ' ') == all_pieces(v),
    decreases v.len(),
{
    reveal_strlit(" ");
    if v.len() == 1 {
        assert(all_pieces(v.drop_last()) =~= Seq::<Seq<char>>::empty());
        assert(v.last() == v[0]);
        assert(all_pieces(v) =~= split(v[0], ' '));
    } else {
        let front = join(v.drop_last(), " "@);
        lemma_pieces_join(v.drop_last());
        assert(front + " "@ + v.last() =~= front.push(' ') + v.last());
        lemma_split_add(front, ' ', v.last());
    }
}

/// A text without a space is one piece.
pub proof fn lemma_one_piece(s: Seq<char>, c: char)
    requires
        !s.contains(c),
    ensures
        split(s, c) == seq![s],
{
    lemma_find(s, c);
}

/// Texts without spaces are the pieces of the list that they make up.
pub proof fn lemma_all_pieces(v: Seq<Seq<char>>)
    requires
        forall|k: int| 0 <= k < v.len() ==> !(#[trigger] v[k]).contains(' '),
    ensures
        all_pieces(v) == v,
    decreases v.len(),
{
    if v.len() > 0 {
        let front = v.drop_last();
        assert forall|k: int| 0 <= k < front.len() implies !(#[trigger] front[k]).contains(' ') by {
            assert(front[k] == v[k]);
        }
        lemma_all_pieces(front);
        assert(!v[v.len() - 1].contains(' '));
        lemma_one_piece(v.last(), ' ');
        assert(all_pieces(v) =~= v);
    }
}

/// The pieces of two lists are those of the first, then those of the second.
pub proof fn lemma_all_pieces_add(a: Seq<Seq<char>>, b: Seq<Seq<char>>)
    ensures
        all_pieces(a + b) == all_pieces(a) + all_pieces(b),
    decreases b.len(),
{
    if b.len() == 0 {
        assert(a + b =~= a);
        assert(all_pieces(a) + all_pieces(b) =~= all_pieces(a));
    } else {
        assert((a + b).drop_last() =~= a + b.drop_last());
        lemma_all_pieces_add(a, b.drop_last());
        assert(all_pieces(a + b) =~= all_pieces(a) + all_pieces(b));
    }
}

/// The strings of `v` with `sep` between neighbours.
pub fn join_texts(v: &Vec<String>, sep: &str) -> (r: String)
    ensures
        r@ == join(texts(v@), sep@),
{
    let mut out = String::new();
    for i in 0..v.len()
        invariant
            out@ == join(texts(v@).take(i as int), sep@),
    {
        let ghost all = texts(v@).take(i + 1);
        assert(all.drop_last() =~= texts(v@).take(i as int));
        assert(all.last() == v@[i as int]@);
        if i > 0 {
            out.append(sep);
        }
        out.append(v[i].as_str());
        assert(out@ =~= join(all, sep@));
    }
    assert(texts(v@).take(v@.len() as int) =~= texts(v@));
    out
}

// ---------------------------------------------------------------------------
// Trimming and splitting
// ---------------------------------------------------------------------------

/// `s` without its leading white space.
pub open spec fn trim_start(s: Seq<char>) -> Seq<char>
    decreases s.len(),
{
    if s.len() > 0 && is_white(s[0]) {
        trim_start(s.skip(1))
    } else {
        s
    }
}

/// `s` without its trailing white space.
pub open spec fn trim_end(s: Seq<char>) -> Seq<char>
    decreases s.len(),
{
    if s.len() > 0 && is_white(s.last()) {
        trim_end(s.drop_last())
    } else {
        s
    }
}

/// `s` without its leading and trailing white space.
pub open spec fn trim(s: Seq<char>) -> Seq<char> {
    trim_end(trim_start(s))
}

/// `s` without its leading and trailing white space.
pub fn trim_text(s: &str) -> (r: String)
    ensures
        r@ == trim(s@),
{
    let cs = chars_of(s);
    let mut a: usize = 0;
    assert(s@.skip(0) =~= s@);
    while a < cs.len() && is_white_char(cs[a])
        invariant
            cs@ == s@,
            a <= cs@.len(),
            trim_start(s@) == trim_start(s@.skip(a as int)),
        decreases cs@.len() - a,
    {
        assert(s@.skip(a as int).skip(1) =~= s@.skip(a + 1));
        a = a + 1;
    }
    let mut b: usize = cs.len();
    assert(s@.subrange(a as int, b as int) =~= s@.skip(a as int));
    while b > a && is_white_char(cs[b - 1])
        invariant
            cs@ == s@,
            a <= b <= cs@.len(),
            trim(s@) == trim_end(s@.subrange(a as int, b as int)),
        decreases b,
    {
        assert(s@.subrange(a as int, b as int).drop_last() =~= s@.subrange(a as int, b - 1));
        b = b - 1;
    }
    string_of(&cs, a, b)
}

/// Where `c` first occurs in `s`, or `s.len()`.
pub open spec fn find(s: Seq<char>, c: char) -> nat
    decreases s.len(),
{
    if s.len() == 0 || s[0] == c {
        0
    } else {
        1 + find(s.skip(1), c)
    }
}

pub proof fn lemma_find(s: Seq<char>, c: char)
    ensures
        find(s, c) <= s.len(),
        forall|i: int| 0 <= i < find(s, c) ==> #[trigger] s[i] != c,
        find(s, c) < s.len() ==> s[find(s, c) as int] == c,
        s.contains(c) <==> find(s, c) < s.len(),
    decreases s.len(),
{
    if s.len() > 0 && s[0] != c {
        lemma_find(s.skip(1), c);
        let n = find(s.skip(1), c);
        assert forall|i: int| 0 <= i < find(s, c) implies #[trigger] s[i] != c by {
            if i > 0 {
                assert(s[i] == s.skip(1)[i - 1]);
            }
        }
        if n + 1 < s.len() {
            assert(s.skip(1)[n as int] == s[n as int + 1]);
        }
        if s.contains(c) {
            let i = s.index_of(c);
            assert(s.skip(1)[i - 1] == s[i]);
        }
    }
}

/// The first occurrence is the one that no other precedes.
pub proof fn lemma_find_is(s: Seq<char>, c: char, n: int)
    requires
        0 <= n <= s.len(),
        forall|i: int| 0 <= i < n ==> #[trigger] s[i] != c,
        n < s.len() ==> s[n] == c,
    ensures
        find(s, c) == n,
    decreases s.len(),
{
    if n > 0 {
        assert forall|i: int| 0 <= i < n - 1 implies #[trigger] s.skip(1)[i] != c by {
            assert(s.skip(1)[i] == s[i + 1]);
        }
        if n < s.len() {
            assert(s.skip(1)[n - 1] == s[n]);
        }
        lemma_find_is(s.skip(1), c, n - 1);
    }
}

/// The pieces of `s` between the occurrences of `c`; one more than there are
/// occurrences.
pub open spec fn split(s: Seq<char>, c: char) -> Seq<Seq<char>>
    decreases s.len(),
{
    let n = find(s, c);
    if n < s.len() {
        seq![s.take(n as int)] + split(s.skip(n as int + 1), c)
    } else {
        seq![s]
    }
}

/// The pieces of two texts with a separator between them are the pieces of both.
pub proof fn lemma_split_add(a: Seq<char>, c: char, b: Seq<char>)
    ensures
        split(a.push(c) + b, c) == split(a, c) + split(b, c),
    decreases a.len(),
{
    let s = a.push(c) + b;
    let n = find(a, c) as int;
    lemma_find(a, c);
    assert forall|i: int| 0 <= i < n implies #[trigger] s[i] != c by {
        assert(s[i] == a[i]);
    }
    lemma_find_is(s, c, n);
    assert(s.take(n) =~= a.take(n));
    if n < a.len() {
        assert(s.skip(n + 1) =~= a.skip(n + 1).push(c) + b);
        lemma_split_add(a.skip(n + 1), c, b);
        assert(split(s, c) =~= split(a, c) + split(b, c));
    } else {
        assert(a.take(n) =~= a);
        assert(s.skip(n + 1) =~= b);
        assert(split(a, c) == seq![a]);
        assert(split(s, c) =~= split(a, c) + split(b, c));
    }
}

/// A piece behind one more separator is one more piece.
pub proof fn lemma_split_push(a: Seq<char>, c: char, b: Seq<char>)
    requires
        !b.contains(c),
    ensures
        split(a.push(c) + b, c) == split(a, c).push(b),
{
    lemma_split_add(a, c, b);
    lemma_find(b, c);
    assert(split(a, c) + split(b, c) =~= split(a, c).push(b));
}

/// The pieces of `s` between the occurrences of `c`.
pub fn split_at_char(s: &str, c: char) -> (r: Vec<String>)
    ensures
        texts(r@) == split(s@, c),
{
    let cs = chars_of(s);
    let n: usize = cs.len();
    let mut out: Vec<String> = Vec::new();
    let mut start: usize = 0;
    let mut i: usize = 0;
    assert(s@.skip(0) =~= s@);
    assert(texts(out@) + split(s@.skip(0), c) =~= split(s@, c));
    while i < n
        invariant
            cs@ == s@,
            n == s@.len(),
            start <= i <= n,
            forall|j: int| start <= j < i ==> #[trigger] s@[j] != c,
            texts(out@) + split(s@.skip(start as int), c) == split(s@, c),
        decreases n - i,
    {
        if cs[i] == c {
            let ghost before = texts(out@);
            let ghost rest = s@.skip(start as int);
            out.push(string_of(&cs, start, i));
            proof {
                let len = i - start;
                assert forall|j: int| 0 <= j < len implies #[trigger] rest[j] != c by {
                    assert(rest[j] == s@[start + j]);
                }
                assert(rest[len] == s@[i as int]);
                lemma_find_is(rest, c, len);
                assert(rest.take(len) =~= s@.subrange(start as int, i as int));
                assert(rest.skip(len + 1) =~= s@.skip(i + 1));
                assert(texts(out@) =~= before.push(rest.take(len)));
                assert(before.push(rest.take(len)) + split(s@.skip(i + 1), c) =~= before + (seq![
                    rest.take(len),
                ] + split(rest.skip(len + 1), c)));
            }
            start = i + 1;
        }
        i = i + 1;
    }
    let ghost before = texts(out@);
    let ghost rest = s@.skip(start as int);
    out.push(string_of(&cs, start, n));
    proof {
        assert forall|j: int| 0 <= j < rest.len() implies #[trigger] rest[j] != c by {
            assert(rest[j] == s@[start + j]);
        }
        lemma_find_is(rest, c, rest.len() as int);
        assert(rest =~= s@.subrange(start as int, n as int));
        assert(texts(out@) =~= before + seq![rest]);
    }
    out
}

/// A line without a carriage return at its end.
pub open spec fn without_return(s: Seq<char>) -> Seq<char> {
    if s.len() > 0 && s.last() == '\r' {
        s.drop_last()
    } else {
        s
    }
}

/// The lines of a text. A line ends with a line feed, before which a carriage
/// return may stand; the last line may go without.
pub open spec fn lines(s: Seq<char>) -> Seq<Seq<char>> {
    let pieces = split(s, '\n');
    let ended = pieces.drop_last().map_values(|p: Seq<char>| without_return(p));
    if pieces.last().len() == 0 {
        ended
    } else {
        ended.push(pieces.last())
    }
}

/// A line without a carriage return at its end.
fn strip_return(s: &String) -> (r: String)
    ensures
        r@ == without_return(s@),
{
    let n: usize = s.as_str().unicode_len();
    if n > 0 && s.as_str().get_char(n - 1) == '\r' {
        let r = s.as_str().substring_char(0, n - 1).to_owned();
        assert(s@.subrange(0, n - 1) =~= s@.drop_last());
        r
    } else {
        s.clone()
    }
}

/// The lines of a text.
pub fn split_lines(s: &str) -> (r: Vec<String>)
    ensures
        texts(r@) == lines(s@),
{
    let pieces = split_at_char(s, '\n');
    let ghost ps = split(s@, '\n');
    let ghost ended = ps.drop_last().map_values(|p: Seq<char>| without_return(p));
    proof {
        assert(split(s@, '\n').len() > 0);
        assert(texts(pieces@).len() == pieces@.len());
    }
    let n: usize = pieces.len() - 1;
    let mut out: Vec<String> = Vec::new();
    assert(texts(out@) =~= ended.take(0));
    for i in 0..n
        invariant
            n + 1 == pieces@.len(),
            ps == texts(pieces@),
            ended == ps.drop_last().map_values(|p: Seq<char>| without_return(p)),
            texts(out@) == ended.take(i as int),
    {
        let ghost before = texts(out@);
        let line = strip_return(&pieces[i]);
        assert(ps[i as int] == pieces@[i as int]@);
        out.push(line);
        assert(texts(out@) =~= before.push(line@));
        assert(texts(out@) =~= ended.take(i + 1));
    }
    assert(ended.take(n as int) =~= ended);
    assert(ps.last() == pieces@[n as int]@);
    if !pieces[n].as_str().is_empty() {
        out.push(pieces[n].clone());
        assert(texts(out@) =~= ended.push(ps.last()));
    }
    out
}

/// Whether `s` holds the character `c`.
pub fn has_char(s: &str, c: char) -> (r: bool)
    ensures
        r == s@.contains(c),
{
    let cs = chars_of(s);
    for i in 0..cs.len()
        invariant
            cs@ == s@,
            forall|j: int| 0 <= j < i ==> #[trigger] s@[j] != c,
    {
        if cs[i] == c {
            return true;
        }
    }
    false
}

/// Whether `s` starts with the characters of `prefix`.
pub fn has_prefix(s: &str, prefix: &str) -> (r: bool)
    ensures
        r == prefix@.is_prefix_of(s@),
{
    let n: usize = prefix.unicode_len();
    if s.unicode_len() < n {
        return false;
    }
    let head = s.substring_char(0, n).to_owned();
    let p = prefix.to_owned();
    head == p
}

/// The characters of `s` from `n` on.
pub fn text_after(s: &str, n: usize) -> (r: String)
    requires
        n <= s@.len(),
    ensures
        r@ == s@.skip(n as int),
{
    let m: usize = s.unicode_len();
    let r = s.substring_char(n, m).to_owned();
    assert(s@.subrange(n as int, m as int) =~= s@.skip(n as int));
    r
}

// ---------------------------------------------------------------------------
// Numbers and case
// ---------------------------------------------------------------------------

/// The digit of a number below ten.
pub open spec fn digit(n: nat) -> char {
    (('0' as int) + n) as char
}

/// The decimal notation of `n`.
pub open spec fn decimal(n: nat) -> Seq<char>
    decreases n,
{
    if n < 10 {
        seq![digit(n)]
    } else {
        decimal(n / 10).push(digit(n % 10))
    }
}

fn digit_char(n: u64) -> (c: char)
    requires
        n < 10,
    ensures
        c == digit(n as nat),
{
    match n {
        0 => '0',
        1 => '1',
        2 => '2',
        3 => '3',
        4 => '4',
        5 => '5',
        6 => '6',
        7 => '7',
        8 => '8',
        _ => '9',
    }
}

/// The decimal notation of `n`.
pub fn decimal_text(n: u64) -> (r: String)
    ensures
        r@ == decimal(n as nat),
    decreases n,
{
    if n < 10 {
        let mut s = String::new();
        s.push(digit_char(n));
        assert(s@ =~= seq![digit(n as nat)]);
        s
    } else {
        let mut s = decimal_text(n / 10);
        s.push(digit_char(n % 10));
        s
    }
}

/// Whether `c` is a digit from 0 to 9.
pub open spec fn is_digit(c: char) -> bool {
    '0' <= c <= '9'
}

/// Whether a character is a digit.
pub(crate) fn is_digit_char(c: char) -> (r: bool)
    ensures
        r == is_digit(c),
{
    '0' <= c && c <= '9'
}

/// The number that a text of digits writes; `None` where another character
/// occurs.
pub open spec fn digits_value(s: Seq<char>) -> Option<nat>
    decreases s.len(),
{
    if s.len() == 0 {
        Some(0)
    } else if !is_digit(s.last()) {
        None
    } else {
        match digits_value(s.drop_last()) {
            Some(n) => Some((10 * n + (s.last() as int - '0' as int)) as nat),
            None => None,
        }
    }
}

/// The integer that a text writes: one or more digits with a sign before them,
/// where there is one.
pub open spec fn integer(s: Seq<char>) -> Option<int> {
    let signed = s.len() > 0 && (s[0] == '+' || s[0] == '-');
    let body = if signed {
        s.skip(1)
    } else {
        s
    };
    if body.len() == 0 {
        None
    } else {
        match digits_value(body) {
            Some(n) => Some(if signed && s[0] == '-' {
                -(n as int)
            } else {
                n as int
            }),
            None => None,
        }
    }
}

/// The value of the digits `cs[from..]`; a value above `limit` is not given.
fn digits_up_to(cs: &Vec<char>, from: usize, limit: u64) -> (r: Option<u64>)
    requires
        from <= cs@.len(),
    ensures
        match r {
            Some(n) => digits_value(cs@.skip(from as int)) == Some(n as nat) && n <= limit,
            None => match digits_value(cs@.skip(from as int)) {
                Some(n) => n > limit,
                None => true,
            },
        },
{
    let mut acc: u128 = 0;
    let mut big: bool = false;
    let ghost rest = cs@.skip(from as int);
    assert(rest.take(0) =~= Seq::<char>::empty());
    for i in from..cs.len()
        invariant
            from <= cs@.len(),
            rest == cs@.skip(from as int),
            digits_value(rest.take(i - from)) matches Some(n) && (if big {
                n > limit
            } else {
                n == acc && acc <= limit
            }),
    {
        let c = cs[i];
        let ghost more = rest.take(i + 1 - from);
        assert(more.drop_last() =~= rest.take(i - from));
        assert(more.last() == c);
        if c < '0' || '9' < c {
            proof {
                lemma_bad_digit(rest, i - from);
            }
            return None;
        }
        let d: u128 = (c as u32 - '0' as u32) as u128;
        if !big {
            acc = 10 * acc + d;
            if acc > limit as u128 {
                big = true;
            }
        }
    }
    assert(rest.take(rest.len() as int) =~= rest);
    if big {
        None
    } else {
        Some(acc as u64)
    }
}

/// A text with a character that is no digit has no value.
proof fn lemma_bad_digit(s: Seq<char>, i: int)
    requires
        0 <= i < s.len(),
        !is_digit(s[i]),
    ensures
        digits_value(s) is None,
    decreases s.len(),
{
    if i < s.len() - 1 {
        lemma_bad_digit(s.drop_last(), i);
    }
}

/// The integer that a text writes, where it fits.
pub fn parse_i32(s: &str) -> (r: Option<i32>)
    ensures
        match integer(s@) {
            Some(n) => if i32::MIN <= n <= i32::MAX {
                r == Some(n as i32)
            } else {
                r is None
            },
            None => r is None,
        },
{
    match parse_i64(s) {
        Some(v) => if -0x8000_0000 <= v && v <= 0x7fff_ffff {
            Some(v as i32)
        } else {
            None
        },
        None => None,
    }
}

/// The integer that a text writes, where it fits.
pub fn parse_i64(s: &str) -> (r: Option<i64>)
    ensures
        match integer(s@) {
            Some(n) => if i64::MIN <= n <= i64::MAX {
                r == Some(n as i64)
            } else {
                r is None
            },
            None => r is None,
        },
{
    let cs = chars_of(s);
    if cs.len() == 0 {
        return None;
    }
    let minus: bool = cs[0] == '-';
    let from: usize = if minus || cs[0] == '+' {
        1
    } else {
        0
    };
    assert(s@.skip(0) =~= s@);
    if from >= cs.len() {
        return None;
    }
    match digits_up_to(&cs, from, 0x8000_0000_0000_0000) {
        Some(n) => {
            let v: i128 = if minus {
                -(n as i128)
            } else {
                n as i128
            };
            if v <= 0x7fff_ffff_ffff_ffff {
                Some(v as i64)
            } else {
                None
            }
        },
        None => None,
    }
}

/// The natural number that a text writes: digits, with or without a plus sign.
pub open spec fn natural(s: Seq<char>) -> Option<nat> {
    let body = if s.len() > 0 && s[0] == '+' {
        s.skip(1)
    } else {
        s
    };
    if body.len() == 0 {
        None
    } else {
        digits_value(body)
    }
}

/// The natural number that a text writes, where it fits.
pub fn parse_u32(s: &str) -> (r: Option<u32>)
    ensures
        match natural(s@) {
            Some(n) => if n <= u32::MAX {
                r == Some(n as u32)
            } else {
                r is None
            },
            None => r is None,
        },
{
    let cs = chars_of(s);
    if cs.len() == 0 {
        return None;
    }
    let from: usize = if cs[0] == '+' {
        1
    } else {
        0
    };
    assert(s@.skip(0) =~= s@);
    if from >= cs.len() {
        return None;
    }
    match digits_up_to(&cs, from, 0xffff_ffff) {
        Some(n) => Some(n as u32),
        None => None,
    }
}

/// The lower case of a Latin letter; another character stays as it is.
pub open spec fn lower_ascii(c: char) -> char {
    if 'A' <= c <= 'Z' {
        ((c as int) + 32) as char
    } else {
        c
    }
}

/// `s` with its Latin letters in lower case.
pub open spec fn ascii_lowercase(s: Seq<char>) -> Seq<char> {
    s.map_values(|c: char| lower_ascii(c))
}

/// The lower case of a Latin letter; another character stays as it is.
fn lower_ascii_char(c: char) -> (r: char)
    ensures
        r == lower_ascii(c),
{
    match c {
        'A' => 'a',
        'B' => 'b',
        'C' => 'c',
        'D' => 'd',
        'E' => 'e',
        'F' => 'f',
        'G' => 'g',
        'H' => 'h',
        'I' => 'i',
        'J' => 'j',
        'K' => 'k',
        'L' => 'l',
        'M' => 'm',
        'N' => 'n',
        'O' => 'o',
        'P' => 'p',
        'Q' => 'q',
        'R' => 'r',
        'S' => 's',
        'T' => 't',
        'U' => 'u',
        'V' => 'v',
        'W' => 'w',
        'X' => 'x',
        'Y' => 'y',
        'Z' => 'z',
        _ => c,
    }
}

/// `s` with its Latin letters in lower case.
pub fn to_ascii_lower(s: &str) -> (r: String)
    ensures
        r@ == ascii_lowercase(s@),
{
    let cs = chars_of(s);
    let mut out = String::new();
    for i in 0..cs.len()
        invariant
            cs@ == s@,
            out@ == ascii_lowercase(s@.take(i as int)),
    {
        out.push(lower_ascii_char(cs[i]));
        assert(out@ =~= ascii_lowercase(s@.take(i + 1)));
    }
    assert(s@.take(s@.len() as int) =~= s@);
    out
}

/// What `str::to_lowercase` makes of the characters of a string.
pub uninterp spec fn lowercase(s: Seq<char>) -> Seq<char>;

/// Calls `str::to_lowercase`, which maps a string to its Unicode lower case;
/// the result depends on the characters alone.
#[verifier::external_body]
pub(crate) fn to_lower(s: &str) -> (r: String)
    ensures
        r@ == lowercase(s@),
{
    s.to_lowercase()
}

// ---------------------------------------------------------------------------
// What holds of texts
// ---------------------------------------------------------------------------

proof fn lemma_trim_start(a: Seq<char>, s: Seq<char>)
    requires
        forall|i: int| 0 <= i < a.len() ==> is_white(#[trigger] a[i]),
        s.len() > 0 ==> !is_white(s[0]),
    ensures
        trim_start(a + s) == s,
    decreases a.len(),
{
    if a.len() == 0 {
        assert(a + s =~= s);
    } else {
        assert(is_white(a[0]));
        let rest = a.skip(1);
        assert forall|i: int| 0 <= i < rest.len() implies is_white(#[trigger] rest[i]) by {
            assert(rest[i] == a[i + 1]);
        }
        assert((a + s).skip(1) =~= rest + s);
        assert((a + s)[0] == a[0]);
        lemma_trim_start(rest, s);
    }
}

proof fn lemma_trim_end(s: Seq<char>, b: Seq<char>)
    requires
        forall|i: int| 0 <= i < b.len() ==> is_white(#[trigger] b[i]),
        s.len() > 0 ==> !is_white(s.last()),
    ensures
        trim_end(s + b) == s,
    decreases b.len(),
{
    if b.len() == 0 {
        assert(s + b =~= s);
    } else {
        assert(is_white(b[b.len() - 1]));
        let rest = b.drop_last();
        assert forall|i: int| 0 <= i < rest.len() implies is_white(#[trigger] rest[i]) by {
            assert(rest[i] == b[i]);
        }
        assert((s + b).drop_last() =~= s + rest);
        lemma_trim_end(s, rest);
    }
}

/// Trimming takes away the white space around a text, and nothing else.
pub proof fn trimming_takes_outer_white(a: Seq<char>, s: Seq<char>, b: Seq<char>)
    requires
        forall|i: int| 0 <= i < a.len() ==> is_white(#[trigger] a[i]),
        forall|i: int| 0 <= i < b.len() ==> is_white(#[trigger] b[i]),
        s.len() > 0 ==> !is_white(s[0]) && !is_white(s.last()),
    ensures
        trim(a + s + b) == s,
{
    if s.len() == 0 {
        let w = a + b;
        assert forall|i: int| 0 <= i < w.len() implies is_white(#[trigger] w[i]) by {
            if i < a.len() {
                assert(w[i] == a[i]);
            } else {
                assert(w[i] == b[i - a.len()]);
            }
        }
        assert(a + s + b =~= w + s);
        lemma_trim_start(w, s);
    } else {
        assert(a + s + b =~= a + (s + b));
        assert((s + b)[0] == s[0]);
        lemma_trim_start(a, s + b);
        lemma_trim_end(s, b);
    }
}

/// A number is read back from its decimal notation, which has digits alone.
pub proof fn decimal_reads_back(n: nat)
    ensures
        decimal(n).len() > 0,
        forall|i: int| 0 <= i < decimal(n).len() ==> is_digit(#[trigger] decimal(n)[i]),
        digits_value(decimal(n)) == Some(n),
        natural(decimal(n)) == Some(n),
        integer(decimal(n)) == Some(n as int),
    decreases n,
{
    let s = decimal(n);
    if n < 10 {
        assert(s.drop_last() =~= Seq::<char>::empty());
        assert(digits_value(s.drop_last()) == Some(0nat));
    } else {
        decimal_reads_back(n / 10);
        assert(s.drop_last() =~= decimal(n / 10));
        assert forall|i: int| 0 <= i < s.len() implies is_digit(#[trigger] s[i]) by {
            if i < s.len() - 1 {
                assert(s[i] == decimal(n / 10)[i]);
            }
        }
    }
    assert(is_digit(s[0]));
}

/// A text has the lines before a line feed, without the carriage return there, and those
/// behind it. A text without a line feed is one line; an empty one has none.
pub proof fn lines_end_with_feeds(a: Seq<char>, b: Seq<char>)
    requires
        !a.contains('\n'),
    ensures
        lines(a.push('\n') + b) == seq![
            if a.len() > 0 && a.last() == '\r' {
                a.drop_last()
            } else {
                a
            },
        ] + lines(b),
        lines(a) == (if a.len() == 0 {
            Seq::empty()
        } else {
            seq![a]
        }),
{
    lemma_one_piece(a, '\n');
    lemma_split_add(a, '\n', b);
    let f = |p: Seq<char>| without_return(p);
    let pb = split(b, '\n');
    assert(pb.len() > 0);
    let all = seq![a] + pb;
    assert(all.last() == pb.last());
    assert(all.drop_last() =~= seq![a] + pb.drop_last());
    assert(all.drop_last().map_values(f) =~= seq![without_return(a)] + pb.drop_last().map_values(
        f,
    ));
    assert(lines(a.push('\n') + b) =~= seq![without_return(a)] + lines(b));
    assert(seq![a].drop_last() =~= Seq::<Seq<char>>::empty());
    assert(seq![a].last() == a);
    assert(lines(a) =~= if a.len() == 0 {
        Seq::<Seq<char>>::empty()
    } else {
        seq![a]
    });
}

/// Whether a text occurs in another one.
pub open spec fn is_within(part: Seq<char>, whole: Seq<char>) -> bool {
    exists|a: Seq<char>, b: Seq<char>| whole == #[trigger] (a + part + b)
}

/// A text occurs in every text that is put together from it and others.
pub proof fn lemma_within(a: Seq<char>, part: Seq<char>, b: Seq<char>)
    ensures
        is_within(part, a + part + b),
        is_within(part, a + part),
        is_within(part, part + b),
{
    let none = Seq::<char>::empty();
    assert(a + part + b =~= a + part + b);
    assert(a + part =~= a + part + none);
    assert(part + b =~= none + part + b);
}

/// A sign before digits counts: a minus makes the number negative.
pub proof fn signs_are_read(n: nat)
    ensures
        integer(seq!['-'] + decimal(n)) == Some(-(n as int)),
        integer(seq!['+'] + decimal(n)) == Some(n as int),
        natural(seq!['+'] + decimal(n)) == Some(n),
        natural(seq!['-'] + decimal(n)) is None,
{
    decimal_reads_back(n);
    let a = seq!['-'] + decimal(n);
    let b = seq!['+'] + decimal(n);
    assert(a.skip(1) =~= decimal(n));
    assert(b.skip(1) =~= decimal(n));
    assert(a[0] == '-' && b[0] == '+');
    lemma_not_digits(a, 0);
}

proof fn lemma_not_digits(s: Seq<char>, i: int)
    requires
        0 <= i < s.len(),
        !is_digit(s[i]),
    ensures
        digits_value(s) is None,
    decreases s.len(),
{
    if i < s.len() - 1 {
        assert(s.drop_last()[i] == s[i]);
        lemma_not_digits(s.drop_last(), i);
    }
}

/// Lower case concerns Latin capitals alone: each becomes its small letter, every other
/// character stays, and a second time changes nothing.
pub proof fn lowering_touches_latin_capitals(s: Seq<char>, i: int)
    requires
        0 <= i < s.len(),
    ensures
        ascii_lowercase(s).len() == s.len(),
        'A' <= s[i] <= 'Z' ==> ascii_lowercase(s)[i] as int == s[i] as int + 32,
        !('A' <= s[i] <= 'Z') ==> ascii_lowercase(s)[i] == s[i],
        ascii_lowercase(ascii_lowercase(s)) == ascii_lowercase(s),
{
    assert(ascii_lowercase(ascii_lowercase(s)) =~= ascii_lowercase(s));
}

} // verus!
