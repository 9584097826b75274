use vstd::prelude::*;
use vstd::string::StringExecFns;

verus! {

/// The characters that carry the Unicode `White_Space` property.
pub open spec fn is_white_space(c: char) -> bool {
    let n = c as u32;
    ||| 0x9 <= n <= 0xd
    ||| n == 0x20
    ||| n == 0x85
    ||| n == 0xa0
    ||| n == 0x1680
    ||| 0x2000 <= n <= 0x200a
    ||| n == 0x2028
    ||| n == 0x2029
    ||| n == 0x202f
    ||| n == 0x205f
    ||| n == 0x3000
}

/// The maximal runs of non-white-space characters of `s`, left to right.
pub open spec fn split_words(s: Seq<char>) -> Seq<Seq<char>>
    decreases s.len(),
{
    if s.len() == 0 {
        seq![]
    } else {
        let prev = split_words(s.drop_last());
        let c = s.last();
        if is_white_space(c) {
            prev
        } else if s.len() >= 2 && !is_white_space(s[s.len() - 2]) {
            prev.update(prev.len() - 1, prev.last().push(c))
        } else {
            prev.push(seq![c])
        }
    }
}

/// The views of a sequence of strings.
pub open spec fn views(v: Seq<String>) -> Seq<Seq<char>> {
    v.map_values(|s: String| s@)
}

/// Whether `c` carries the Unicode `White_Space` property, the characters
/// that `char::is_whitespace` accepts.
pub fn is_white_space_char(c: char) -> (r: bool)
    ensures
        r == is_white_space(c),
{
    let n = c as u32;
    (0x9 <= n && n <= 0xd) || n == 0x20 || n == 0x85 || n == 0xa0 || n == 0x1680 || (0x2000 <= n
        && n <= 0x200a) || n == 0x2028 || n == 0x2029 || n == 0x202f || n == 0x205f || n == 0x3000
}

/// `String::push`: appends one character at the end.
#[verifier::external_body]
pub(crate) fn push_char(s: &mut String, c: char)
    ensures
        final(s)@ == old(s)@.push(c),
{
    s.push(c);
}

/// `a` and `b` agree on their first `n` characters.
pub open spec fn same_prefix(a: Seq<char>, b: Seq<char>, n: int) -> bool {
    forall|j: int| 0 <= j < n ==> a[j] == b[j]
}

/// At index `n`, where `a` and `b` have agreed so far, `a` comes first:
/// either `a` ends there and `b` goes on, or `a` has the smaller character.
pub open spec fn first_at(a: Seq<char>, b: Seq<char>, n: int) -> bool {
    ||| n == a.len() && n < b.len()
    ||| n < a.len() && n < b.len() && (a[n] as u32) < (b[n] as u32)
}

/// Lexicographic order of character sequences by code point, the order of
/// `str`'s `<`.
pub open spec fn seq_lt(a: Seq<char>, b: Seq<char>) -> bool {
    exists|n: int| 0 <= n <= a.len() && n <= b.len() && #[trigger] same_prefix(a, b, n) && first_at(a, b, n)
}

/// Characters with the same code point are the same character.
pub proof fn lemma_char_code_injective(a: char, b: char)
    ensures
        (a as u32) == (b as u32) ==> a == b,
{
    vstd::utf8::char_u32_cast(a, a as u32);
    vstd::utf8::char_u32_cast(b, b as u32);
}

/// Where two sequences first differ decides their order.
pub proof fn lemma_lt_at_difference(a: Seq<char>, b: Seq<char>, i: int)
    requires
        0 <= i < a.len(),
        i < b.len(),
        same_prefix(a, b, i),
        a[i] != b[i],
    ensures
        seq_lt(a, b) == ((a[i] as u32) < (b[i] as u32)),
{
    if (a[i] as u32) < (b[i] as u32) {
        assert(same_prefix(a, b, i));
    } else if seq_lt(a, b) {
        let n = choose|n: int| 0 <= n <= a.len() && n <= b.len() && #[trigger] same_prefix(a, b, n) && first_at(a, b, n);
        if n > i {
            assert(a[i] == b[i]);
        }
    }
}

/// When one sequence is a prefix of the other, the shorter comes first.
pub proof fn lemma_lt_prefix(a: Seq<char>, b: Seq<char>)
    requires
        same_prefix(a, b, if a.len() <= b.len() { a.len() as int } else { b.len() as int }),
    ensures
        seq_lt(a, b) == (a.len() < b.len()),
{
    if a.len() < b.len() {
        assert(same_prefix(a, b, a.len() as int));
    }
}

/// No sequence comes before itself.
pub proof fn lemma_lt_irreflexive(a: Seq<char>)
    ensures
        !seq_lt(a, a),
{
}

/// The order is transitive.
pub proof fn lemma_lt_transitive(a: Seq<char>, b: Seq<char>, c: Seq<char>)
    requires
        seq_lt(a, b),
        seq_lt(b, c),
    ensures
        seq_lt(a, c),
{
    let n1 = choose|n: int| 0 <= n <= a.len() && n <= b.len() && #[trigger] same_prefix(a, b, n) && first_at(a, b, n);
    let n2 = choose|n: int| 0 <= n <= b.len() && n <= c.len() && #[trigger] same_prefix(b, c, n) && first_at(b, c, n);
    if n1 <= n2 {
        assert(same_prefix(a, c, n1));
    } else {
        assert(same_prefix(a, c, n2));
    }
}

/// Two different sequences are ordered one way or the other.
pub proof fn lemma_lt_total(a: Seq<char>, b: Seq<char>)
    requires
        a != b,
    ensures
        seq_lt(a, b) || seq_lt(b, a),
{
    lemma_lt_total_from(a, b, 0);
}

proof fn lemma_lt_total_from(a: Seq<char>, b: Seq<char>, n: int)
    requires
        a != b,
        0 <= n <= a.len(),
        n <= b.len(),
        same_prefix(a, b, n),
    ensures
        seq_lt(a, b) || seq_lt(b, a),
    decreases a.len() - n,
{
    if n == a.len() || n == b.len() {
        if a.len() == b.len() {
            assert(a =~= b);
        } else if a.len() < b.len() {
            assert(same_prefix(a, b, n));
        } else {
            assert(same_prefix(b, a, n));
        }
    } else if a[n] != b[n] {
        lemma_char_code_injective(a[n], b[n]);
        if (a[n] as u32) < (b[n] as u32) {
            assert(same_prefix(a, b, n));
        } else {
            assert(same_prefix(b, a, n));
        }
    } else {
        lemma_lt_total_from(a, b, n + 1);
    }
}

/// The characters of `s`.
pub fn chars_of(s: &str) -> (r: Vec<char>)
    ensures
        r@ == s@,
{
    let mut r: Vec<char> = Vec::new();
    for c in iter: s.chars()
        invariant
            iter.seq() == s@,
            r@ == s@.take(iter.index() as int),
    {
        r.push(c);
        assert(r@ =~= s@.take(iter.index() as int + 1));
    }
    assert(r@ =~= s@);
    r
}

/// Whether `a` comes before `b` in lexicographic order.
pub fn str_less(a: &str, b: &str) -> (r: bool)
    ensures
        r == seq_lt(a@, b@),
{
    let ca = chars_of(a);
    let cb = chars_of(b);
    let mut i: usize = 0;
    while i < ca.len() && i < cb.len()
        invariant
            ca@ == a@,
            cb@ == b@,
            0 <= i <= ca@.len(),
            i <= cb@.len(),
            same_prefix(a@, b@, i as int),
        decreases ca@.len() - i,
    {
        let x = ca[i] as u32;
        let y = cb[i] as u32;
        proof {
            lemma_char_code_injective(a@[i as int], b@[i as int]);
        }
        if x != y {
            proof {
                lemma_lt_at_difference(a@, b@, i as int);
            }
            return x < y;
        }
        i = i + 1;
    }
    proof {
        lemma_lt_prefix(a@, b@);
    }
    ca.len() < cb.len()
}

/// The decimal digit `d`.
pub open spec fn digit(d: nat) -> char {
    if d == 0 {
        '0'
    } else if d == 1 {
        '1'
    } else if d == 2 {
        '2'
    } else if d == 3 {
        '3'
    } else if d == 4 {
        '4'
    } else if d == 5 {
        '5'
    } else if d == 6 {
        '6'
    } else if d == 7 {
        '7'
    } else if d == 8 {
        '8'
    } else {
        '9'
    }
}

/// The value of a decimal digit character.
pub open spec fn digit_value(c: char) -> nat {
    if c == '0' {
        0
    } else if c == '1' {
        1
    } else if c == '2' {
        2
    } else if c == '3' {
        3
    } else if c == '4' {
        4
    } else if c == '5' {
        5
    } else if c == '6' {
        6
    } else if c == '7' {
        7
    } else if c == '8' {
        8
    } else {
        9
    }
}

/// The decimal notation of `n`, without leading zeros.
pub open spec fn decimal(n: nat) -> Seq<char>
    decreases n,
{
    if n < 10 {
        seq![digit(n)]
    } else {
        decimal(n / 10).push(digit(n % 10))
    }
}

/// The number that a string of decimal digits denotes.
pub open spec fn decimal_value(s: Seq<char>) -> nat
    decreases s.len(),
{
    if s.len() == 0 {
        0
    } else {
        decimal_value(s.drop_last()) * 10 + digit_value(s.last())
    }
}

/// Reading back the decimal notation of `n` gives `n`.
pub proof fn lemma_decimal_value(n: nat)
    ensures
        decimal_value(decimal(n)) == n,
    decreases n,
{
    if n < 10 {
        assert(seq![digit(n)].drop_last() =~= Seq::<char>::empty());
        assert(digit_value(digit(n)) == n);
        assert(decimal(n) == seq![digit(n)]);
        assert(decimal_value(seq![digit(n)]) == decimal_value(Seq::<char>::empty()) * 10 + digit_value(digit(n)));
    } else {
        lemma_decimal_value(n / 10);
        assert(decimal(n).drop_last() =~= decimal(n / 10));
        assert(digit_value(digit((n % 10) as nat)) == n % 10);
        assert((n / 10) * 10 + n % 10 == n);
        let s = decimal(n);
        assert(s.last() == digit((n % 10) as nat));
        assert(decimal_value(s) == decimal_value(s.drop_last()) * 10 + digit_value(s.last()));
    }
}

/// Different numbers have different decimal notations.
pub proof fn lemma_decimal_injective(a: nat, b: nat)
    requires
        decimal(a) == decimal(b),
    ensures
        a == b,
{
    lemma_decimal_value(a);
    lemma_decimal_value(b);
}

/// Appends the decimal notation of `n` to `s`.
pub fn push_decimal(s: &mut String, n: usize)
    ensures
        final(s)@ == old(s)@ + decimal(n as nat),
    decreases n,
{
    if n >= 10 {
        push_decimal(s, n / 10);
    }
    let d = n % 10;
    let c = if d == 0 {
        '0'
    } else if d == 1 {
        '1'
    } else if d == 2 {
        '2'
    } else if d == 3 {
        '3'
    } else if d == 4 {
        '4'
    } else if d == 5 {
        '5'
    } else if d == 6 {
        '6'
    } else if d == 7 {
        '7'
    } else if d == 8 {
        '8'
    } else {
        '9'
    };
    push_char(s, c);
    assert(final(s)@ =~= old(s)@ + decimal(n as nat));
}

/// The words joined with single spaces.
pub open spec fn join_words(ws: Seq<Seq<char>>) -> Seq<char>
    decreases ws.len(),
{
    if ws.len() == 0 {
        Seq::empty()
    } else if ws.len() == 1 {
        ws[0]
    } else {
        join_words(ws.drop_last()) + seq![' '] + ws.last()
    }
}

/// Joins `words[start..end]` with single spaces.
pub fn join_range(words: &Vec<String>, start: usize, end: usize) -> (r: String)
    requires
        start <= end <= words@.len(),
    ensures
        r@ == join_words(views(words@).subrange(start as int, end as int)),
{
    let mut r = String::new();
    let mut i = start;
    while i < end
        invariant
            start <= i <= end <= words@.len(),
            r@ == join_words(views(words@).subrange(start as int, i as int)),
        decreases end - i,
    {
        let ghost ws = views(words@).subrange(start as int, i as int + 1);
        assert(ws.drop_last() =~= views(words@).subrange(start as int, i as int));
        if i > start {
            push_char(&mut r, ' ');
        }
        r.append(words[i].as_str());
        proof {
            if i == start {
                assert(ws.len() == 1);
                assert(r@ =~= ws[0]);
            } else {
                assert(r@ =~= join_words(ws.drop_last()) + seq![' '] + ws.last());
            }
        }
        i = i + 1;
    }
    r
}

/// Every word is non-empty and holds no white space.
pub proof fn lemma_words_are_words(s: Seq<char>)
    ensures
        forall|i: int|
            0 <= i < split_words(s).len() ==> (#[trigger] split_words(s)[i]).len() > 0 && forall|j: int|
                0 <= j < split_words(s)[i].len() ==> !is_white_space(split_words(s)[i][j]),
    decreases s.len(),
{
    if s.len() > 0 {
        let t = s.drop_last();
        lemma_words_are_words(t);
        let prev = split_words(t);
        let c = s.last();
        let w = split_words(s);
        if !is_white_space(c) {
            if s.len() >= 2 && !is_white_space(s[s.len() - 2]) {
                lemma_split_words_nonempty(t);
                assert forall|i: int| 0 <= i < w.len() implies (#[trigger] w[i]).len() > 0 && forall|j: int|
                    0 <= j < w[i].len() ==> !is_white_space(w[i][j]) by {
                    if i < w.len() - 1 {
                        assert(w[i] == prev[i]);
                    } else {
                        assert(w[i] == prev.last().push(c));
                        assert forall|j: int| 0 <= j < w[i].len() implies !is_white_space(w[i][j]) by {
                            if j < w[i].len() - 1 {
                                assert(w[i][j] == prev[prev.len() - 1][j]);
                            }
                        }
                    }
                }
            } else {
                assert forall|i: int| 0 <= i < w.len() implies (#[trigger] w[i]).len() > 0 && forall|j: int|
                    0 <= j < w[i].len() ==> !is_white_space(w[i][j]) by {
                    if i < w.len() - 1 {
                        assert(w[i] == prev[i]);
                    }
                }
            }
        }
    }
}

/// A text that ends in a non-white-space character has a word.
proof fn lemma_split_words_nonempty(s: Seq<char>)
    requires
        s.len() > 0,
        !is_white_space(s.last()),
    ensures
        split_words(s).len() > 0,
    decreases s.len(),
{
    let t = s.drop_last();
    if s.len() >= 2 && !is_white_space(s[s.len() - 2]) {
        lemma_split_words_nonempty(t);
    }
}

/// The characters of `s` that are not white space, in order.
pub open spec fn without_white_space(s: Seq<char>) -> Seq<char>
    decreases s.len(),
{
    if s.len() == 0 {
        Seq::empty()
    } else if is_white_space(s.last()) {
        without_white_space(s.drop_last())
    } else {
        without_white_space(s.drop_last()).push(s.last())
    }
}

/// The words one after another, with nothing between them.
pub open spec fn concat_words(ws: Seq<Seq<char>>) -> Seq<char>
    decreases ws.len(),
{
    if ws.len() == 0 {
        Seq::empty()
    } else {
        concat_words(ws.drop_last()) + ws.last()
    }
}

/// `w` is a word: non-empty and free of white space.
pub open spec fn is_word(w: Seq<char>) -> bool {
    w.len() > 0 && forall|j: int| 0 <= j < w.len() ==> !is_white_space(#[trigger] w[j])
}

/// Concatenating the words of `s` gives `s` without its white space.
pub proof fn lemma_concat_words(s: Seq<char>)
    ensures
        concat_words(split_words(s)) == without_white_space(s),
    decreases s.len(),
{
    if s.len() > 0 {
        let t = s.drop_last();
        let c = s.last();
        let prev = split_words(t);
        lemma_concat_words(t);
        assert(s.drop_last() == t);
        if !is_white_space(c) {
            if s.len() >= 2 && !is_white_space(s[s.len() - 2]) {
                lemma_split_words_nonempty(t);
                let w = split_words(s);
                assert(w.drop_last() =~= prev.drop_last());
                assert(concat_words(prev) == concat_words(prev.drop_last()) + prev.last());
                assert(concat_words(w) =~= concat_words(prev).push(c));
            } else {
                let w = split_words(s);
                assert(w.drop_last() =~= prev);
                assert(concat_words(w) =~= concat_words(prev).push(c));
            }
        }
    }
}

/// A single word splits into itself.
proof fn lemma_split_word(w: Seq<char>)
    requires
        is_word(w),
    ensures
        split_words(w) == seq![w],
    decreases w.len(),
{
    assert(!is_white_space(w[w.len() - 1]));
    if w.len() == 1 {
        assert(w.drop_last() =~= Seq::<char>::empty());
        assert(split_words(w.drop_last()) == Seq::<Seq<char>>::empty());
        assert(seq![w.last()] =~= w);
        assert(split_words(w) =~= seq![w]);
    } else {
        let t = w.drop_last();
        assert(is_word(t)) by {
            assert forall|j: int| 0 <= j < t.len() implies !is_white_space(#[trigger] t[j]) by {
                assert(t[j] == w[j]);
            }
        }
        lemma_split_word(t);
        assert(!is_white_space(w[w.len() - 2]));
        assert(t.push(w.last()) =~= w);
        assert(split_words(w) =~= seq![w]);
    }
}

/// A word appended after white space (or at the start) is a new last word.
proof fn lemma_split_append_word(x: Seq<char>, w: Seq<char>)
    requires
        x.len() == 0 || is_white_space(x.last()),
        is_word(w),
    ensures
        split_words(x + w) == split_words(x).push(w),
    decreases w.len(),
{
    let s = x + w;
    assert(s.drop_last() =~= x + w.drop_last());
    if w.len() == 1 {
        assert(s.drop_last() =~= x);
        assert(seq![s.last()] =~= w);
        if s.len() >= 2 {
            assert(s[s.len() - 2] == x.last());
        }
    } else {
        let t = w.drop_last();
        assert(is_word(t)) by {
            assert forall|j: int| 0 <= j < t.len() implies !is_white_space(#[trigger] t[j]) by {
                assert(t[j] == w[j]);
            }
        }
        lemma_split_append_word(x, t);
        assert(s[s.len() - 2] == w[w.len() - 2]);
        assert(t.push(w.last()) =~= w);
        let prev = split_words(x).push(t);
        assert(prev.update(prev.len() - 1, prev.last().push(s.last())) =~= split_words(x).push(w));
    }
}

/// Joining words with single spaces and splitting the result gives the
/// words back.
pub proof fn lemma_split_join(ws: Seq<Seq<char>>)
    requires
        forall|i: int| 0 <= i < ws.len() ==> is_word(#[trigger] ws[i]),
    ensures
        split_words(join_words(ws)) == ws,
    decreases ws.len(),
{
    if ws.len() == 0 {
    } else if ws.len() == 1 {
        lemma_split_word(ws[0]);
        assert(seq![ws[0]] =~= ws);
    } else {
        let front = ws.drop_last();
        lemma_split_join(front);
        let x = join_words(front) + seq![' '];
        assert(x.drop_last() =~= join_words(front));
        assert(is_white_space(x.last()));
        assert(split_words(x) == split_words(join_words(front)));
        lemma_split_append_word(x, ws.last());
        assert(front.push(ws.last()) =~= ws);
    }
}

} // verus!
