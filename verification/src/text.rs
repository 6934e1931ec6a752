//! Character-level text primitives shared by both parsing pipelines:
//! ASCII case folding, line splitting, whitespace tokenization and
//! space-joined concatenation, each specified over `Seq<char>`.

use vstd::prelude::*;

verus! {

/// The characters that `split_ascii_whitespace` treats as separators.
pub open spec fn is_ascii_ws(c: char) -> bool {
    c == ' ' || c == '\t' || c == '\n' || c == '\r' || c == '\u{000C}'
}

/// ASCII upper-casing of a single character; everything outside
/// `'a'..='z'` is left unchanged.
pub open spec fn upper_char(c: char) -> char {
    if 'a' <= c && c <= 'z' {
        ((c as u8) - 32) as char
    } else {
        c
    }
}

/// ASCII upper-casing of a whole character sequence.
pub open spec fn upper_of(s: Seq<char>) -> Seq<char> {
    s.map_values(|c: char| upper_char(c))
}

/// ASCII upper-casing of a string slice. Each lower-case letter is
/// replaced by the matching literal; every other character is copied
/// out of the source unchanged.
pub fn upper_str(s: &str) -> (r: String)
    ensures
        r@ == upper_of(s@),
{
    let len = s.unicode_len();
    let mut out = String::new();
    for i in 0..len
        invariant
            len == s@.len(),
            out@ == upper_of(s@.take(i as int)),
    {
        let c = s.get_char(i);
        let piece: &str = match c {
            'a' => "A",
            'b' => "B",
            'c' => "C",
            'd' => "D",
            'e' => "E",
            'f' => "F",
            'g' => "G",
            'h' => "H",
            'i' => "I",
            'j' => "J",
            'k' => "K",
            'l' => "L",
            'm' => "M",
            'n' => "N",
            'o' => "O",
            'p' => "P",
            'q' => "Q",
            'r' => "R",
            's' => "S",
            't' => "T",
            'u' => "U",
            'v' => "V",
            'w' => "W",
            'x' => "X",
            'y' => "Y",
            'z' => "Z",
            _ => s.substring_char(i, i + 1),
        };
        proof {
            reveal_strlit("A");
            reveal_strlit("B");
            reveal_strlit("C");
            reveal_strlit("D");
            reveal_strlit("E");
            reveal_strlit("F");
            reveal_strlit("G");
            reveal_strlit("H");
            reveal_strlit("I");
            reveal_strlit("J");
            reveal_strlit("K");
            reveal_strlit("L");
            reveal_strlit("M");
            reveal_strlit("N");
            reveal_strlit("O");
            reveal_strlit("P");
            reveal_strlit("Q");
            reveal_strlit("R");
            reveal_strlit("S");
            reveal_strlit("T");
            reveal_strlit("U");
            reveal_strlit("V");
            reveal_strlit("W");
            reveal_strlit("X");
            reveal_strlit("Y");
            reveal_strlit("Z");
            assert(piece@ =~= seq![upper_char(s@[i as int])]);
            assert(upper_of(s@.take(i + 1)) =~= upper_of(s@.take(i as int)) + piece@);
        }
        out.append(piece);
    }
    proof {
        assert(s@.take(len as int) =~= s@);
    }
    out
}

/// A line with one trailing `'\r'` removed, as `str::lines` treats
/// a line that a `"\r\n"` ending terminated.
pub open spec fn strip_cr(l: Seq<char>) -> Seq<char> {
    if l.len() > 0 && l.last() == '\r' {
        l.drop_last()
    } else {
        l
    }
}

/// The segments of `s` between `'\n'` separators, before `'\r'`
/// stripping. A trailing `'\n'` closes the last segment rather than
/// opening an empty one.
pub open spec fn split_nl(s: Seq<char>) -> Seq<Seq<char>>
    decreases s.len(),
{
    if s.len() == 0 {
        Seq::empty()
    } else if s[0] == '\n' {
        seq![Seq::<char>::empty()] + split_nl(s.drop_first())
    } else {
        let rest = split_nl(s.drop_first());
        if rest.len() == 0 {
            seq![seq![s[0]]]
        } else {
            seq![seq![s[0]] + rest[0]] + rest.drop_first()
        }
    }
}

/// The lines of `s`, as `str::lines` yields them: a trailing `'\r'`
/// is removed only from a line that a `'\n'` terminated, so an
/// unterminated final line keeps one.
pub open spec fn lines_of(s: Seq<char>) -> Seq<Seq<char>> {
    Seq::new(
        split_nl(s).len(),
        |i: int|
            if i < split_nl(s).len() - 1 || (s.len() > 0 && s.last() == '\n') {
                strip_cr(split_nl(s)[i])
            } else {
                split_nl(s)[i]
            },
    )
}

/// The whitespace-delimited tokens of `s`: the maximal runs of
/// non-whitespace characters, in order.
pub open spec fn tokens_of(s: Seq<char>) -> Seq<Seq<char>>
    decreases s.len(),
{
    if s.len() == 0 {
        Seq::empty()
    } else if is_ascii_ws(s[0]) {
        tokens_of(s.drop_first())
    } else {
        let rest = tokens_of(s.drop_first());
        if s.len() > 1 && !is_ascii_ws(s[1]) {
            seq![seq![s[0]] + rest[0]] + rest.drop_first()
        } else {
            seq![seq![s[0]]] + rest
        }
    }
}

/// The tokens joined back together with single spaces.
pub open spec fn join_spaces(ts: Seq<Seq<char>>) -> Seq<char>
    decreases ts.len(),
{
    if ts.len() == 0 {
        Seq::empty()
    } else if ts.len() == 1 {
        ts[0]
    } else {
        ts[0] + seq![' '] + join_spaces(ts.drop_first())
    }
}

/// `split_nl` taken apart at the first `'\n'`: everything before it is
/// one segment, and the rest of the segments come from what follows it.
proof fn lemma_split_nl_decompose(s: Seq<char>, k: int)
    requires
        0 < s.len(),
        0 <= k <= s.len(),
        forall|j: int| 0 <= j < k ==> s[j] != '\n',
        k < s.len() ==> s[k] == '\n',
    ensures
        k == s.len() ==> split_nl(s) =~= seq![s],
        k < s.len() ==> split_nl(s) =~= seq![s.take(k)] + split_nl(s.skip(k + 1)),
    decreases s.len(),
{
    if s[0] == '\n' {
        assert(k == 0);
        assert(s.take(0) =~= Seq::<char>::empty());
        assert(s.skip(1) =~= s.drop_first());
    } else {
        assert(k >= 1);
        let t = s.drop_first();
        if s.len() == 1 {
            assert(t.len() == 0);
            assert(split_nl(t) =~= Seq::<Seq<char>>::empty());
            assert(split_nl(s) =~= seq![seq![s[0]]]);
            assert(seq![s[0]] =~= s);
        } else {
            lemma_split_nl_decompose(t, k - 1);
            let rest = split_nl(t);
            assert(rest.len() > 0) by {
                if k - 1 == t.len() {
                    assert(rest =~= seq![t]);
                } else {
                    assert(rest =~= seq![t.take(k - 1)] + split_nl(t.skip(k)));
                }
            }
            if k == s.len() {
                assert(rest =~= seq![t]);
                assert(seq![s[0]] + t =~= s);
                assert(split_nl(s) =~= seq![s]);
            } else {
                assert(rest =~= seq![t.take(k - 1)] + split_nl(t.skip(k)));
                assert(rest[0] == t.take(k - 1));
                assert(rest.drop_first() =~= split_nl(t.skip(k)));
                assert(seq![s[0]] + t.take(k - 1) =~= s.take(k));
                assert(t.skip(k) =~= s.skip(k + 1));
                assert(split_nl(s) =~= seq![s.take(k)] + split_nl(s.skip(k + 1)));
            }
        }
    }
}

/// A non-empty text splits into at least one segment.
proof fn lemma_split_nl_nonempty(s: Seq<char>)
    requires
        s.len() > 0,
    ensures
        split_nl(s).len() >= 1,
{
}

/// `lines_of` taken apart at the first `'\n'`: everything before it
/// is one line, `'\r'`-stripped, and the remaining lines come from
/// what follows it. Without any `'\n'`, the whole of `s` is the one
/// line, kept as it is.
proof fn lemma_lines_decompose(s: Seq<char>, k: int)
    requires
        0 < s.len(),
        0 <= k <= s.len(),
        forall|j: int| 0 <= j < k ==> s[j] != '\n',
        k < s.len() ==> s[k] == '\n',
    ensures
        k == s.len() ==> lines_of(s) =~= seq![s],
        k < s.len() ==> lines_of(s) =~= seq![strip_cr(s.take(k))] + lines_of(s.skip(k + 1)),
{
    lemma_split_nl_decompose(s, k);
    if k == s.len() {
        assert(s.last() != '\n');
    } else {
        let u = s.skip(k + 1);
        if u.len() == 0 {
            assert(split_nl(u) =~= Seq::<Seq<char>>::empty());
            assert(s.last() == s[k]);
            assert(lines_of(u) =~= Seq::<Seq<char>>::empty());
            assert(lines_of(s) =~= seq![strip_cr(s.take(k))]);
        } else {
            assert(u.last() == s.last());
            lemma_split_nl_nonempty(u);
            assert(lines_of(s) =~= seq![strip_cr(s.take(k))] + lines_of(u));
        }
    }
}

/// `tokens_of` taken apart at the end of a leading token: characters
/// `0..k` form the first token, and the rest of the tokens come from
/// the suffix.
proof fn lemma_tokens_decompose(s: Seq<char>, k: int)
    requires
        1 <= k <= s.len(),
        forall|j: int| 0 <= j < k ==> !is_ascii_ws(s[j]),
        k < s.len() ==> is_ascii_ws(s[k]),
    ensures
        tokens_of(s) =~= seq![s.take(k)] + tokens_of(s.skip(k)),
    decreases k,
{
    let t = s.drop_first();
    if k == 1 {
        assert(s.take(1) =~= seq![s[0]]);
        assert(s.skip(1) =~= t);
        if s.len() > 1 {
            assert(is_ascii_ws(s[1]));
        }
    } else {
        lemma_tokens_decompose(t, k - 1);
        let rest = tokens_of(t);
        assert(rest[0] == t.take(k - 1));
        assert(rest.drop_first() =~= tokens_of(t.skip(k - 1)));
        assert(!is_ascii_ws(s[1]));
        assert(seq![s[0]] + t.take(k - 1) =~= s.take(k));
        assert(t.skip(k - 1) =~= s.skip(k));
    }
}

/// Whether `c` separates tokens.
pub fn is_ws(c: char) -> (b: bool)
    ensures
        b == is_ascii_ws(c),
{
    c == ' ' || c == '\t' || c == '\n' || c == '\r' || c == '\u{000C}'
}

/// Splits `s` into its lines, as `str::lines` does: segments between
/// `'\n'` characters, each terminated one with one trailing `'\r'`
/// removed, with no empty segment after a final `'\n'`.
pub fn split_lines(s: &str) -> (r: Vec<String>)
    ensures
        r.deep_view() == lines_of(s@),
{
    let len = s.unicode_len();
    let mut r: Vec<String> = Vec::new();
    let mut i: usize = 0;
    proof {
        assert(s@.skip(0) =~= s@);
        assert(r.deep_view() + lines_of(s@) =~= lines_of(s@));
    }
    while i < len
        invariant
            len == s@.len(),
            i <= len,
            lines_of(s@) == r.deep_view() + lines_of(s@.skip(i as int)),
        decreases len - i,
    {
        let ghost prev = r.deep_view();
        let mut j: usize = i;
        while j < len && s.get_char(j) != '\n'
            invariant
                len == s@.len(),
                i <= j <= len,
                forall|m: int| i <= m < j ==> s@[m] != '\n',
            decreases len - j,
        {
            j = j + 1;
        }
        let line = if j < len && j > i && s.get_char(j - 1) == '\r' {
            s.substring_char(i, j - 1)
        } else {
            s.substring_char(i, j)
        };
        proof {
            let u = s@.skip(i as int);
            lemma_lines_decompose(u, j - i);
            assert(u.take(j - i) =~= s@.subrange(i as int, j as int));
            if j < len {
                assert(line@ == strip_cr(s@.subrange(i as int, j as int)));
                assert(u.skip(j - i + 1) =~= s@.skip(j + 1));
                assert(lines_of(u) =~= seq![line@] + lines_of(s@.skip(j + 1)));
            } else {
                assert(u.take(j - i) =~= u);
                assert(line@ == u);
                assert(lines_of(u) =~= seq![line@]);
            }
        }
        r.push(String::from_str(line));
        proof {
            assert(r.deep_view() =~= prev + seq![line@]);
        }
        if j < len {
            i = j + 1;
        } else {
            proof {
                assert(s@.skip(len as int) =~= Seq::<char>::empty());
            }
            i = len;
        }
    }
    proof {
        assert(s@.skip(len as int) =~= Seq::<char>::empty());
        assert(r.deep_view() =~= lines_of(s@));
    }
    r
}

/// Splits `s` into its whitespace-delimited tokens.
pub fn split_tokens(s: &str) -> (r: Vec<String>)
    ensures
        r.deep_view() == tokens_of(s@),
{
    let len = s.unicode_len();
    let mut r: Vec<String> = Vec::new();
    let mut i: usize = 0;
    proof {
        assert(s@.skip(0) =~= s@);
        assert(r.deep_view() + tokens_of(s@) =~= tokens_of(s@));
    }
    while i < len
        invariant
            len == s@.len(),
            i <= len,
            tokens_of(s@) == r.deep_view() + tokens_of(s@.skip(i as int)),
        decreases len - i,
    {
        if is_ws(s.get_char(i)) {
            proof {
                assert(s@.skip(i as int).drop_first() =~= s@.skip(i + 1));
            }
            i = i + 1;
        } else {
            let ghost prev = r.deep_view();
            let mut j: usize = i + 1;
            while j < len && !is_ws(s.get_char(j))
                invariant
                    len == s@.len(),
                    i < j <= len,
                    forall|m: int| i <= m < j ==> !is_ascii_ws(s@[m]),
                decreases len - j,
            {
                j = j + 1;
            }
            let tok = String::from_str(s.substring_char(i, j));
            proof {
                let u = s@.skip(i as int);
                lemma_tokens_decompose(u, j - i);
                assert(u.take(j - i) =~= s@.subrange(i as int, j as int));
                assert(u.skip(j - i) =~= s@.skip(j as int));
            }
            r.push(tok);
            proof {
                assert(r.deep_view() =~= prev + seq![tok@]);
            }
            i = j;
        }
    }
    proof {
        assert(s@.skip(len as int) =~= Seq::<char>::empty());
        assert(r.deep_view() =~= tokens_of(s@));
    }
    r
}

/// Joins `tokens[start..]` with single spaces between them.
pub fn join_tokens(tokens: &Vec<String>, start: usize) -> (r: String)
    requires
        start <= tokens@.len(),
    ensures
        r@ == join_spaces(tokens.deep_view().skip(start as int)),
{
    let mut r = String::new();
    let len = tokens.len();
    let mut idx: usize = start;
    while idx < len
        invariant
            start <= idx <= len,
            len == tokens@.len(),
            join_spaces(tokens.deep_view().skip(start as int)) == r@ + (if idx < len {
                (if idx > start {
                    seq![' ']
                } else {
                    Seq::<char>::empty()
                }) + join_spaces(tokens.deep_view().skip(idx as int))
            } else {
                Seq::<char>::empty()
            }),
        decreases len - idx,
    {
        if idx > start {
            proof {
                reveal_strlit(" ");
            }
            r.append(" ");
        }
        r.append(tokens[idx].as_str());
        proof {
            let d = tokens.deep_view();
            assert(d.skip(idx as int)[0] == d[idx as int]);
            assert(d.skip(idx as int).drop_first() =~= d.skip(idx + 1));
        }
        idx = idx + 1;
    }
    r
}

/// Whether some element of `ss` is the character sequence `t`.
pub open spec fn seq_has_str(ss: Seq<Seq<char>>, t: Seq<char>) -> bool {
    exists|i: int| 0 <= i < ss.len() && ss[i] == t
}

/// Whether some element of `v` equals `s`, compared by contents.
pub fn contains_str(v: &Vec<String>, s: &str) -> (r: bool)
    ensures
        r == seq_has_str(v.deep_view(), s@),
{
    let len = v.len();
    for i in 0..len
        invariant
            len == v@.len(),
            forall|j: int| 0 <= j < i ==> v.deep_view()[j] != s@,
    {
        if str_eq(v[i].as_str(), s) {
            assert(v.deep_view()[i as int] == s@);
            return true;
        }
    }
    false
}

/// Compares two string slices by contents.
pub fn str_eq(a: &str, b: &str) -> (r: bool)
    ensures
        r == (a@ == b@),
{
    let a_len = a.unicode_len();
    let b_len = b.unicode_len();
    if a_len != b_len {
        return false;
    }
    for i in 0..a_len
        invariant
            a_len == a@.len(),
            a_len == b@.len(),
            forall|j: int| 0 <= j < i ==> a@[j] == b@[j],
    {
        if a.get_char(i) != b.get_char(i) {
            return false;
        }
    }
    proof {
        assert(a@ =~= b@);
    }
    true
}

} // verus!
