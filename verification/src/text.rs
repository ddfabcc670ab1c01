//! Character-level text helpers: white space, words, truncation.

use vstd::prelude::*;

verus! {

/// The Unicode `White_Space` property, which is what `char::is_whitespace` tests.
pub open spec fn is_white_space(c: char) -> bool {
    ||| ('\t' <= c && c <= '\r')
    ||| c == ' '
    ||| c == '\u{85}'
    ||| c == '\u{a0}'
    ||| c == '\u{1680}'
    ||| ('\u{2000}' <= c && c <= '\u{200a}')
    ||| c == '\u{2028}'
    ||| c == '\u{2029}'
    ||| c == '\u{202f}'
    ||| c == '\u{205f}'
    ||| c == '\u{3000}'
}

/// Whether `c` is white space in the sense of `is_white_space`.
pub fn is_white_space_char(c: char) -> (b: bool)
    ensures
        b == is_white_space(c),
{
    ('\t' <= c && c <= '\r') || c == ' ' || c == '\u{85}' || c == '\u{a0}' || c == '\u{1680}'
        || ('\u{2000}' <= c && c <= '\u{200a}') || c == '\u{2028}' || c == '\u{2029}' || c
        == '\u{202f}' || c == '\u{205f}' || c == '\u{3000}'
}


/// The state of a left-to-right scan that splits `s` at white space:
/// the words already closed, and the word still being read.
pub open spec fn split_state(s: Seq<char>) -> (Seq<Seq<char>>, Seq<char>)
    decreases s.len(),
{
    if s.len() == 0 {
        (seq![], seq![])
    } else {
        let (done, cur) = split_state(s.drop_last());
        let c = s.last();
        if is_white_space(c) {
            if cur.len() > 0 {
                (done.push(cur), seq![])
            } else {
                (done, seq![])
            }
        } else {
            (done, cur.push(c))
        }
    }
}

/// The words of `s`: its maximal runs of characters that are not white space, in order
/// (what `str::split_whitespace` yields).
pub open spec fn words(s: Seq<char>) -> Seq<Seq<char>> {
    let (done, cur) = split_state(s);
    if cur.len() > 0 {
        done.push(cur)
    } else {
        done
    }
}

/// The pieces of `ws` joined with `sep` between each two of them.
pub open spec fn join_with(ws: Seq<Seq<char>>, sep: Seq<char>) -> Seq<char>
    decreases ws.len(),
{
    if ws.len() == 0 {
        seq![]
    } else if ws.len() == 1 {
        ws[0]
    } else {
        join_with(ws.drop_last(), sep) + sep + ws.last()
    }
}

/// A browser name with its word order reversed, words joined by single spaces;
/// a name without words is kept as it is.
pub open spec fn flipped_name(s: Seq<char>) -> Seq<char> {
    if words(s).len() == 0 {
        s
    } else {
        join_with(words(s).reverse(), seq![' '])
    }
}

/// `String::push`: appends one character.
#[verifier::external_body]
fn push_char(s: &mut String, c: char)
    ensures
        final(s)@ == old(s)@.push(c),
{
    s.push(c);
}

/// The words of `s`, as `str::split_whitespace` yields them.
pub fn split_words(s: &str) -> (ws: Vec<String>)
    ensures
        ws.deep_view() == words(s@),
{
    let mut done: Vec<String> = Vec::new();
    let mut cur = String::new();
    for c in it: s.chars()
        invariant
            it.seq() == s@,
            (done.deep_view(), cur@) == split_state(s@.take(it.index())),
    {
        let ghost i = it.index();
        assert(s@.take(i + 1).drop_last() =~= s@.take(i));
        if is_white_space_char(c) {
            if cur.unicode_len() > 0 {
                let w = cur;
                done.push(w);
                cur = String::new();
                assert(done.deep_view() =~= split_state(s@.take(i + 1)).0);
            }
        } else {
            push_char(&mut cur, c);
        }
    }
    assert(s@.take(s@.len() as int) =~= s@);
    if cur.unicode_len() > 0 {
        done.push(cur);
        assert(done.deep_view() =~= words(s@));
    }
    done
}


/// The browser name shown on a button: `name` with its word order reversed
/// ("The firefox beta" becomes "beta firefox The").
pub fn flip_browser_name(name: &str) -> (res: String)
    ensures
        res@ == flipped_name(name@),
{
    let ws = split_words(name);
    if ws.len() == 0 {
        return String::from_str(name);
    }
    let ghost rev = ws.deep_view().reverse();
    let n = ws.len();
    let mut res = String::new();
    let mut k = n;
    while k > 0
        invariant
            n == ws.len(),
            rev == ws.deep_view().reverse(),
            k <= n,
            res@ == join_with(rev.take(n - k), seq![' ']),
        decreases k,
    {
        k = k - 1;
        let ghost m = n - 1 - k;
        assert(rev.take(m + 1).drop_last() =~= rev.take(m));
        assert(rev.take(m + 1).last() == ws.deep_view()[k as int]);
        if k + 1 < n {
            push_char(&mut res, ' ');
        }
        res.append(ws[k].as_str());
        assert(res@ =~= join_with(rev.take(m + 1), seq![' ']));
    }
    assert(rev.take(n as int) =~= rev);
    res
}


/// A word: a non-empty run of characters none of which is white space.
pub open spec fn is_word(w: Seq<char>) -> bool {
    w.len() > 0 && forall|i: int| 0 <= i < w.len() ==> !is_white_space(#[trigger] w[i])
}

/// Every piece that `split_state` closes is a word, and the open piece holds no white space.
proof fn lemma_split_state_words(s: Seq<char>)
    ensures
        forall|k: int| 0 <= k < split_state(s).0.len() ==> is_word(#[trigger] split_state(s).0[k]),
        forall|i: int|
            0 <= i < split_state(s).1.len() ==> !is_white_space(#[trigger] split_state(s).1[i]),
    decreases s.len(),
{
    if s.len() > 0 {
        lemma_split_state_words(s.drop_last());
        let (done, cur) = split_state(s.drop_last());
        let c = s.last();
        if is_white_space(c) {
            if cur.len() > 0 {
                assert forall|k: int| 0 <= k < done.push(cur).len() implies is_word(
                    #[trigger] done.push(cur)[k],
                ) by {
                    if k < done.len() {
                        assert(done.push(cur)[k] == done[k]);
                    } else {
                        assert(done.push(cur)[k] == cur);
                    }
                }
            }
        } else {
            assert forall|i: int| 0 <= i < cur.push(c).len() implies !is_white_space(
                #[trigger] cur.push(c)[i],
            ) by {
                if i < cur.len() {
                    assert(cur.push(c)[i] == cur[i]);
                }
            }
        }
    }
}

/// Every word of `s` is a word in the sense of `is_word`.
pub proof fn lemma_words_are_words(s: Seq<char>)
    ensures
        forall|k: int| 0 <= k < words(s).len() ==> is_word(#[trigger] words(s)[k]),
{
    lemma_split_state_words(s);
}

/// Reading characters free of white space only extends the open piece.
proof fn lemma_split_state_append(p: Seq<char>, w: Seq<char>)
    requires
        forall|i: int| 0 <= i < w.len() ==> !is_white_space(#[trigger] w[i]),
    ensures
        split_state(p + w) == (split_state(p).0, split_state(p).1 + w),
    decreases w.len(),
{
    if w.len() == 0 {
        assert(p + w =~= p);
        assert(split_state(p).1 + w =~= split_state(p).1);
    } else {
        let w0 = w.drop_last();
        assert((p + w).drop_last() =~= p + w0);
        assert((p + w).last() == w.last());
        lemma_split_state_append(p, w0);
        assert(split_state(p).1 + w0.push(w.last()) =~= split_state(p).1 + w);
        assert(w0.push(w.last()) =~= w);
    }
}

/// Splitting the words of `ws` joined by single spaces: all but the last word are closed,
/// the last one is still open.
proof fn lemma_split_state_join(ws: Seq<Seq<char>>)
    requires
        ws.len() > 0,
        forall|k: int| 0 <= k < ws.len() ==> is_word(#[trigger] ws[k]),
    ensures
        split_state(join_with(ws, seq![' '])) == (ws.drop_last(), ws.last()),
    decreases ws.len(),
{
    let empty: Seq<char> = seq![];
    if ws.len() == 1 {
        assert(is_word(ws[0]));
        lemma_split_state_append(empty, ws[0]);
        assert(empty + ws[0] =~= ws[0]);
        assert(split_state(empty) == (Seq::<Seq<char>>::empty(), empty));
        assert(ws.drop_last() =~= Seq::<Seq<char>>::empty());
    } else {
        let front = ws.drop_last();
        assert forall|k: int| 0 <= k < front.len() implies is_word(#[trigger] front[k]) by {
            assert(front[k] == ws[k]);
        }
        lemma_split_state_join(front);
        let j = join_with(front, seq![' ']);
        let js = j + seq![' '];
        assert(js.drop_last() =~= j);
        assert(split_state(js) == (front.drop_last().push(front.last()), empty));
        assert(front.drop_last().push(front.last()) =~= front);
        assert(is_word(ws.last()));
        lemma_split_state_append(js, ws.last());
        assert(join_with(ws, seq![' ']) == js + ws.last());
        assert(empty + ws.last() =~= ws.last());
    }
}

/// Splitting words that were joined by single spaces gives the words back.
pub proof fn lemma_words_of_join(ws: Seq<Seq<char>>)
    requires
        forall|k: int| 0 <= k < ws.len() ==> is_word(#[trigger] ws[k]),
    ensures
        words(join_with(ws, seq![' '])) == ws,
{
    if ws.len() == 0 {
        assert(join_with(ws, seq![' ']) =~= Seq::<char>::empty());
        assert(words(Seq::<char>::empty()) =~= ws);
    } else {
        lemma_split_state_join(ws);
        assert(is_word(ws.last()));
        assert(ws.drop_last().push(ws.last()) =~= ws);
    }
}

/// Flipping a browser name twice gives back its words in their own order, joined by
/// single spaces; in particular a name whose words are already separated by single spaces,
/// with no white space around them, is given back unchanged.
pub proof fn lemma_flip_twice(s: Seq<char>)
    requires
        words(s).len() > 0,
    ensures
        flipped_name(flipped_name(s)) == join_with(words(s), seq![' ']),
        s == join_with(words(s), seq![' ']) ==> flipped_name(flipped_name(s)) == s,
{
    let ws = words(s);
    lemma_words_are_words(s);
    let rev = ws.reverse();
    assert forall|k: int| 0 <= k < rev.len() implies is_word(#[trigger] rev[k]) by {
        assert(rev[k] == ws[ws.len() - 1 - k]);
    }
    lemma_words_of_join(rev);
    assert(rev.reverse() =~= ws);
}


/// The first `n` characters of `s` (all of `s` when it is shorter).
pub open spec fn first_chars(s: Seq<char>, n: nat) -> Seq<char> {
    if n < s.len() {
        s.take(n as int)
    } else {
        s
    }
}

/// The first `n` characters of `s`, as `s.chars().take(n).collect()` gives them.
pub fn truncate_chars(s: &str, n: usize) -> (res: String)
    ensures
        res@ == first_chars(s@, n as nat),
        res@.len() <= n,
        s@.take(res@.len() as int) == res@,
{
    let len = s.unicode_len();
    let k = if n < len {
        n
    } else {
        len
    };
    let res = String::from_str(s.substring_char(0, k));
    assert(s@.subrange(0, k as int) =~= first_chars(s@, n as nat));
    assert(s@.take(res@.len() as int) =~= res@);
    res
}

/// The characters of `s`, one by one.
pub fn chars_of(s: &str) -> (v: Vec<char>)
    ensures
        v@ == s@,
{
    let mut v: Vec<char> = Vec::new();
    for c in it: s.chars()
        invariant
            it.seq() == s@,
            v@ == s@.take(it.index()),
    {
        let ghost i = it.index();
        v.push(c);
        assert(v@ =~= s@.take(i + 1));
    }
    assert(s@.take(s@.len() as int) =~= s@);
    v
}

/// `needle` occurs in `hay` as a contiguous piece.
pub open spec fn occurs_in(needle: Seq<char>, hay: Seq<char>) -> bool {
    exists|i: int| 0 <= i && i + needle.len() <= hay.len() && #[trigger] hay.subrange(i, i + needle.len()) == needle
}

/// `prefix` is how `s` begins.
pub open spec fn begins_with(s: Seq<char>, prefix: Seq<char>) -> bool {
    prefix.len() <= s.len() && s.take(prefix.len() as int) == prefix
}

/// Whether `hay` holds `needle` from position `at` on.
fn matches_at(hay: &Vec<char>, needle: &Vec<char>, at: usize) -> (b: bool)
    requires
        at + needle@.len() <= hay@.len(),
    ensures
        b == (hay@.subrange(at as int, at + needle@.len()) == needle@),
{
    let hay_len = hay.len();
    let mut k: usize = 0;
    while k < needle.len()
        invariant
            hay_len == hay@.len(),
            at + needle@.len() <= hay@.len(),
            k <= needle@.len(),
            forall|j: int| 0 <= j < k ==> hay@[at + j] == needle@[j],
        decreases needle@.len() - k,
    {
        assert(at + k < hay@.len());
        if hay[at + k] != needle[k] {
            assert(hay@.subrange(at as int, at + needle@.len())[k as int] != needle@[k as int]);
            return false;
        }
        k = k + 1;
    }
    assert(hay@.subrange(at as int, at + needle@.len()) =~= needle@);
    true
}

/// Whether `needle` occurs in `hay`, as `str::contains` answers it.
pub fn contains_text(hay: &str, needle: &str) -> (b: bool)
    ensures
        b == occurs_in(needle@, hay@),
{
    let h = chars_of(hay);
    let n = chars_of(needle);
    if n.len() > h.len() {
        return false;
    }
    let last = h.len() - n.len();
    let mut i: usize = 0;
    loop
        invariant
            h@ == hay@,
            n@ == needle@,
            last == h@.len() - n@.len(),
            n@.len() <= h@.len(),
            i <= last,
            forall|j: int| 0 <= j < i ==> #[trigger] h@.subrange(j, j + n@.len()) != n@,
        decreases last - i,
    {
        if matches_at(&h, &n, i) {
            return true;
        }
        if i == last {
            return false;
        }
        i = i + 1;
    }
}

/// Whether `s` begins with `prefix`, as `str::starts_with` answers it.
pub fn starts_with_text(s: &str, prefix: &str) -> (b: bool)
    ensures
        b == begins_with(s@, prefix@),
{
    let h = chars_of(s);
    let p = chars_of(prefix);
    if p.len() > h.len() {
        return false;
    }
    let b = matches_at(&h, &p, 0);
    assert(h@.subrange(0, p@.len() as int) =~= h@.take(p@.len() as int));
    b
}

/// Whether two texts are the same, as `==` on strings answers it.
pub fn same_text(a: &str, b: &str) -> (r: bool)
    ensures
        r == (a@ == b@),
{
    let x = chars_of(a);
    let y = chars_of(b);
    if x.len() != y.len() {
        return false;
    }
    let r = matches_at(&x, &y, 0);
    assert(x@.subrange(0, y@.len() as int) =~= x@);
    r
}

/// What `str::to_lowercase` gives for a text: its Unicode lower-case mapping, which takes
/// pages of tables to state.
pub uninterp spec fn unicode_lowercase(s: Seq<char>) -> Seq<char>;

/// `str::to_lowercase`; its result is named `unicode_lowercase` of the text.
#[verifier::external_body]
pub(crate) fn to_lowercase(s: &str) -> (res: String)
    ensures
        res@ == unicode_lowercase(s@),
{
    s.to_lowercase()
}


/// `s[i..j]` is a maximal run of characters that are not white space: nothing but such
/// characters, with white space or an end of `s` on either side.
pub open spec fn is_maximal_run(s: Seq<char>, i: int, j: int) -> bool {
    &&& 0 <= i < j <= s.len()
    &&& forall|k: int| i <= k < j ==> !is_white_space(#[trigger] s[k])
    &&& (i == 0 || is_white_space(s[i - 1]))
    &&& (j == s.len() || is_white_space(s[j]))
}

/// The bounds `b` show `ws` to be the maximal runs of `s`, in order: each piece is the run
/// that its bounds mark, the runs follow one another, and every maximal run is among them.
pub open spec fn are_maximal_runs(s: Seq<char>, ws: Seq<Seq<char>>, b: Seq<(int, int)>) -> bool {
    &&& b.len() == ws.len()
    &&& forall|k: int|
        0 <= k < b.len() ==> is_maximal_run(s, (#[trigger] b[k]).0, b[k].1) && ws[k] == s.subrange(
            b[k].0,
            b[k].1,
        )
    &&& forall|k: int, l: int| 0 <= k < l < b.len() ==> (#[trigger] b[k]).1 < (#[trigger] b[l]).0
    &&& forall|i: int, j: int|
        #[trigger] is_maximal_run(s, i, j) ==> exists|k: int| 0 <= k < b.len() && #[trigger] b[k] == (i, j)
}

/// A maximal run that ends before the last character of `p` stays one when a character is
/// added to `p`.
proof fn lemma_run_survives_push(p: Seq<char>, c: char, i: int, j: int)
    requires
        is_maximal_run(p, i, j),
        j < p.len(),
    ensures
        is_maximal_run(p.push(c), i, j),
        p.push(c).subrange(i, j) == p.subrange(i, j),
{
    let s = p.push(c);
    assert forall|m: int| i <= m < j implies !is_white_space(#[trigger] s[m]) by {
        assert(s[m] == p[m]);
    }
    assert(s[j] == p[j]);
    if i > 0 {
        assert(s[i - 1] == p[i - 1]);
    }
    assert(s.subrange(i, j) =~= p.subrange(i, j));
}

/// A maximal run of `p.push(c)` that ends before `c` is one of `p`.
proof fn lemma_run_of_prefix(p: Seq<char>, c: char, i: int, j: int)
    requires
        is_maximal_run(p.push(c), i, j),
        j < p.len() || (j == p.len() && is_white_space(c)),
    ensures
        is_maximal_run(p, i, j),
{
    let s = p.push(c);
    assert forall|m: int| i <= m < j implies !is_white_space(#[trigger] p[m]) by {
        assert(s[m] == p[m]);
    }
    if j < p.len() {
        assert(s[j] == p[j]);
    }
    if i > 0 {
        assert(s[i - 1] == p[i - 1]);
    }
}

/// The scan of `split_state`: the closed pieces are the maximal runs that end before the open
/// piece, which is the tail of `s` after the last white space.
proof fn lemma_split_state_runs(s: Seq<char>) -> (b: Seq<(int, int)>)
    ensures
        ({
            let (done, cur) = split_state(s);
            let st = s.len() - cur.len();
            &&& 0 <= st <= s.len()
            &&& cur == s.subrange(st, s.len() as int)
            &&& forall|m: int| st <= m < s.len() ==> !is_white_space(#[trigger] s[m])
            &&& (st == 0 || is_white_space(s[st - 1]))
            &&& b.len() == done.len()
            &&& forall|k: int|
                0 <= k < b.len() ==> is_maximal_run(s, (#[trigger] b[k]).0, b[k].1) && done[k]
                    == s.subrange(b[k].0, b[k].1) && b[k].1 < st
            &&& forall|k: int, l: int| 0 <= k < l < b.len() ==> (#[trigger] b[k]).1 < (#[trigger] b[l]).0
            &&& forall|i: int, j: int|
                #[trigger] is_maximal_run(s, i, j) ==> (exists|k: int|
                    0 <= k < b.len() && #[trigger] b[k] == (i, j)) || (i == st && j == s.len())
        }),
    decreases s.len(),
{
    if s.len() == 0 {
        let b: Seq<(int, int)> = seq![];
        assert(s.subrange(0, 0) =~= split_state(s).1);
        b
    } else {
        let p = s.drop_last();
        let c = s.last();
        let pb = lemma_split_state_runs(p);
        let (done, cur) = split_state(p);
        assert(s =~= p.push(c));
        let n = p.len() as int;
        let st = n - cur.len();
        assert forall|k: int| 0 <= k < n implies #[trigger] p[k] == s[k] by {}
        if is_white_space(c) {
            if cur.len() > 0 {
                let b = pb.push((st, n));
                assert(split_state(s).0 == done.push(cur));
                assert forall|m: int| st <= m < n implies !is_white_space(#[trigger] s[m]) by {
                    assert(p[m] == s[m]);
                }
                if st > 0 {
                    assert(p[st - 1] == s[st - 1]);
                }
                assert(is_maximal_run(s, st, n));
                assert(s.subrange(st, n) =~= cur);
                assert(s.subrange(n + 1, n + 1) =~= split_state(s).1);
                assert forall|k: int| 0 <= k < b.len() implies is_maximal_run(
                    s,
                    (#[trigger] b[k]).0,
                    b[k].1,
                ) && split_state(s).0[k] == s.subrange(b[k].0, b[k].1) && b[k].1 < n + 1 by {
                    if k < pb.len() {
                        assert(b[k] == pb[k]);
                        lemma_run_survives_push(p, c, pb[k].0, pb[k].1);
                    }
                }
                assert forall|i: int, j: int| #[trigger] is_maximal_run(s, i, j) implies (exists|k: int|
                    0 <= k < b.len() && #[trigger] b[k] == (i, j)) || (i == n + 1 && j == s.len()) by {
                    assert(j <= n);
                    lemma_run_of_prefix(p, c, i, j);
                    if j == n && i == st {
                        assert(b[pb.len() as int] == (i, j));
                    } else {
                        let k = choose|k: int| 0 <= k < pb.len() && #[trigger] pb[k] == (i, j);
                        assert(b[k] == (i, j));
                    }
                }
                b
            } else {
                assert(split_state(s).0 == done);
                assert(s.subrange(n + 1, n + 1) =~= split_state(s).1);
                assert forall|k: int| 0 <= k < pb.len() implies is_maximal_run(
                    s,
                    (#[trigger] pb[k]).0,
                    pb[k].1,
                ) && split_state(s).0[k] == s.subrange(pb[k].0, pb[k].1) && pb[k].1 < n + 1 by {
                    lemma_run_survives_push(p, c, pb[k].0, pb[k].1);
                }
                assert forall|i: int, j: int| #[trigger] is_maximal_run(s, i, j) implies (exists|k: int|
                    0 <= k < pb.len() && #[trigger] pb[k] == (i, j)) || (i == n + 1 && j == s.len()) by {
                    assert(j <= n);
                    lemma_run_of_prefix(p, c, i, j);
                }
                pb
            }
        } else {
            assert(s.subrange(st, n + 1) =~= cur.push(c));
            assert forall|k: int| 0 <= k < pb.len() implies is_maximal_run(
                s,
                (#[trigger] pb[k]).0,
                pb[k].1,
            ) && split_state(s).0[k] == s.subrange(pb[k].0, pb[k].1) && pb[k].1 < st by {
                lemma_run_survives_push(p, c, pb[k].0, pb[k].1);
            }
            assert forall|i: int, j: int| #[trigger] is_maximal_run(s, i, j) implies (exists|k: int|
                0 <= k < pb.len() && #[trigger] pb[k] == (i, j)) || (i == st && j == s.len()) by {
                if j == n + 1 {
                    if i < st {
                        assert(!is_white_space(s[st - 1]));
                    } else if i > st {
                        assert(!is_white_space(s[i - 1]));
                    }
                } else {
                    assert(j < n);
                    lemma_run_of_prefix(p, c, i, j);
                }
            }
            pb
        }
    }
}

/// The words of `s` are exactly its maximal runs of characters that are not white space, in
/// order; the result gives where each word stands in `s`.
pub proof fn lemma_words_are_maximal_runs(s: Seq<char>) -> (b: Seq<(int, int)>)
    ensures
        are_maximal_runs(s, words(s), b),
{
    let pb = lemma_split_state_runs(s);
    let (done, cur) = split_state(s);
    let n = s.len() as int;
    let st = n - cur.len();
    if cur.len() > 0 {
        let b = pb.push((st, n));
        assert(is_maximal_run(s, st, n));
        assert forall|k: int| 0 <= k < b.len() implies is_maximal_run(s, (#[trigger] b[k]).0, b[k].1)
            && words(s)[k] == s.subrange(b[k].0, b[k].1) by {
            if k < pb.len() {
                assert(b[k] == pb[k]);
            }
        }
        assert forall|i: int, j: int| #[trigger] is_maximal_run(s, i, j) implies exists|k: int|
            0 <= k < b.len() && #[trigger] b[k] == (i, j) by {
            if i == st && j == n {
                assert(b[pb.len() as int] == (i, j));
            } else {
                let k = choose|k: int| 0 <= k < pb.len() && #[trigger] pb[k] == (i, j);
                assert(b[k] == (i, j));
            }
        }
        b
    } else {
        pb
    }
}


/// Among ASCII characters, white space is exactly the space, tab, line feed, vertical tab,
/// form feed and carriage return; in particular no ASCII letter, digit or punctuation mark is
/// white space.
pub proof fn lemma_ascii_white_space(c: char)
    requires
        (c as u32) < 128,
    ensures
        is_white_space(c) <==> (c == ' ' || c == '\t' || c == '\n' || c == '\u{b}' || c == '\u{c}'
            || c == '\r'),
        ('a' <= c <= 'z') || ('A' <= c <= 'Z') || ('0' <= c <= '9') ==> !is_white_space(c),
{
}

/// White space is exactly the characters of the Unicode `White_Space` property, by code point:
/// U+0009 to U+000D, U+0020, U+0085, U+00A0, U+1680, U+2000 to U+200A, U+2028, U+2029, U+202F,
/// U+205F and U+3000. No other character, and so no letter, digit or punctuation mark, is.
pub proof fn lemma_white_space_code_points(c: char)
    ensures
        is_white_space(c) <==> (0x9 <= (c as u32) <= 0xd || (c as u32) == 0x20 || (c as u32) == 0x85
            || (c as u32) == 0xa0 || (c as u32) == 0x1680 || 0x2000 <= (c as u32) <= 0x200a
            || (c as u32) == 0x2028 || (c as u32) == 0x2029 || (c as u32) == 0x202f || (c as u32)
            == 0x205f || (c as u32) == 0x3000),
{
}

/// A non-empty text without white space is a single word.
pub proof fn lemma_single_word(s: Seq<char>)
    requires
        s.len() > 0,
        forall|i: int| 0 <= i < s.len() ==> !is_white_space(#[trigger] s[i]),
    ensures
        words(s) == seq![s],
{
    let empty: Seq<char> = seq![];
    lemma_split_state_append(empty, s);
    assert(empty + s =~= s);
    assert(split_state(empty) == (Seq::<Seq<char>>::empty(), empty));
    assert(words(s) =~= seq![s]);
}

} // verus!
