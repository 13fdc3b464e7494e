use vstd::prelude::*;
use vstd::string::StrSliceExecFns;

verus! {

/// Appends `c` to `s`. Trusted: `String::push` appends the character to the
/// end of the string and changes nothing else.
#[verifier::external_body]
pub(crate) fn string_push(s: &mut String, c: char)
    ensures
        final(s)@ == old(s)@.push(c),
{
    s.push(c);
}

/// The characters `from..to` of `v` as a string.
pub fn chars_to_string(v: &Vec<char>, from: usize, to: usize) -> (r: String)
    requires
        from <= to <= v@.len(),
    ensures
        r@ == v@.subrange(from as int, to as int),
{
    let mut s = String::new();
    let mut i = from;
    while i < to
        invariant
            from <= i <= to <= v@.len(),
            s@ == v@.subrange(from as int, i as int),
        decreases to - i,
    {
        string_push(&mut s, v[i]);
        i += 1;
        assert(s@ =~= v@.subrange(from as int, i as int));
    }
    s
}


/// The decimal digit for `d < 10`.
pub open spec fn digit_char(d: nat) -> char {
    if d == 0 {
        '0'
    } else if d == 1 {
        '1'
    } else if d == 2 {
        '2'
    } else if d == 3 {
        '3'
    } else if d == 4 {
        '4'
    } else if d == 5 {
        '5'
    } else if d == 6 {
        '6'
    } else if d == 7 {
        '7'
    } else if d == 8 {
        '8'
    } else {
        '9'
    }
}

/// Decimal representation of `n`, without leading zeros.
pub open spec fn decimal(n: nat) -> Seq<char>
    decreases n,
{
    if n < 10 {
        seq![digit_char(n)]
    } else {
        decimal(n / 10).push(digit_char(n % 10))
    }
}

fn digit(d: u64) -> (c: char)
    requires
        d < 10,
    ensures
        c == digit_char(d as nat),
{
    if d == 0 {
        '0'
    } else if d == 1 {
        '1'
    } else if d == 2 {
        '2'
    } else if d == 3 {
        '3'
    } else if d == 4 {
        '4'
    } else if d == 5 {
        '5'
    } else if d == 6 {
        '6'
    } else if d == 7 {
        '7'
    } else if d == 8 {
        '8'
    } else {
        '9'
    }
}

/// Appends the decimal representation of `n` to `s`.
pub fn push_decimal(s: &mut String, n: u64)
    ensures
        final(s)@ == old(s)@ + decimal(n as nat),
    decreases n,
{
    if n >= 10 {
        push_decimal(s, n / 10);
    }
    string_push(s, digit(n % 10));
    proof {
        if n < 10 {
            assert(n % 10 == n);
        }
    }
    assert(final(s)@ =~= old(s)@ + decimal(n as nat)) by {
    }
}

/// Appends the characters of `t` to `s`.
pub fn push_str(s: &mut String, t: &str)
    ensures
        final(s)@ == old(s)@ + t@,
{
    let ghost start = s@;
    let mut seen: usize = 0;
    let total = t.unicode_len();
    for c in it: t.chars()
        invariant
            it.seq() == t@,
            seen == it.index(),
            total == t@.len(),
            s@ == start + t@.take(seen as int),
    {
        string_push(s, c);
        seen += 1;
        assert(s@ =~= start + t@.take(seen as int));
    }
    assert(t@.take(seen as int) =~= t@);
}

/// `n` copies of `c`.
pub open spec fn repeat_char(c: char, n: nat) -> Seq<char> {
    Seq::new(n, |i: int| c)
}

/// Appends `n` copies of `c` to `s`.
pub fn push_repeat(s: &mut String, c: char, n: usize)
    ensures
        final(s)@ == old(s)@ + repeat_char(c, n as nat),
{
    let ghost start = s@;
    let mut i: usize = 0;
    while i < n
        invariant
            i <= n,
            s@ == start + repeat_char(c, i as nat),
        decreases n - i,
    {
        string_push(s, c);
        i += 1;
        assert(s@ =~= start + repeat_char(c, i as nat));
    }
}

/// The characters of `t`.
pub fn str_chars(t: &str) -> (r: Vec<char>)
    ensures
        r@ == t@,
{
    let mut v: Vec<char> = Vec::new();
    let total = t.unicode_len();
    for c in it: t.chars()
        invariant
            it.seq() == t@,
            v@.len() == it.index(),
            total == t@.len(),
            v@ == t@.take(v@.len() as int),
    {
        v.push(c);
        assert(v@ =~= t@.take(v@.len() as int));
    }
    assert(t@.take(v@.len() as int) =~= t@);
    v
}

/// The characters with the Unicode property White_Space, which is what
/// `char::is_whitespace` tests for.
pub open spec fn is_whitespace_spec(c: char) -> bool {
    ||| '\u{9}' <= c <= '\u{D}'
    ||| c == ' '
    ||| c == '\u{85}'
    ||| c == '\u{A0}'
    ||| c == '\u{1680}'
    ||| '\u{2000}' <= c <= '\u{200A}'
    ||| c == '\u{2028}'
    ||| c == '\u{2029}'
    ||| c == '\u{202F}'
    ||| c == '\u{205F}'
    ||| c == '\u{3000}'
}

pub fn is_whitespace(c: char) -> (r: bool)
    ensures
        r == is_whitespace_spec(c),
{
    ('\u{9}' <= c && c <= '\u{D}') || c == ' ' || c == '\u{85}' || c == '\u{A0}' || c == '\u{1680}'
        || ('\u{2000}' <= c && c <= '\u{200A}') || c == '\u{2028}' || c == '\u{2029}' || c
        == '\u{202F}' || c == '\u{205F}' || c == '\u{3000}'
}

/// `s` without its leading whitespace.
pub open spec fn trim_start(s: Seq<char>) -> Seq<char>
    decreases s.len(),
{
    if s.len() > 0 && is_whitespace_spec(s[0]) {
        trim_start(s.drop_first())
    } else {
        s
    }
}

/// `s` without its trailing whitespace.
pub open spec fn trim_end(s: Seq<char>) -> Seq<char>
    decreases s.len(),
{
    if s.len() > 0 && is_whitespace_spec(s.last()) {
        trim_end(s.drop_last())
    } else {
        s
    }
}

/// `s` without leading or trailing whitespace, as `str::trim` gives it.
pub open spec fn trim(s: Seq<char>) -> Seq<char> {
    trim_end(trim_start(s))
}

/// Where `s` starts and ends once its leading and trailing whitespace is
/// removed.
pub fn trim_bounds(s: &Vec<char>) -> (r: (usize, usize))
    ensures
        r.0 <= r.1 <= s@.len(),
        trim(s@) == s@.subrange(r.0 as int, r.1 as int),
{
    let n = s.len();
    let mut i: usize = 0;
    assert(s@.skip(0) =~= s@);
    while i < n && is_whitespace(s[i])
        invariant
            i <= n == s@.len(),
            trim_start(s@) == trim_start(s@.skip(i as int)),
        decreases n - i,
    {
        assert(s@.skip(i as int).drop_first() =~= s@.skip(i + 1));
        i += 1;
    }
    assert(trim_start(s@) == s@.skip(i as int)) by {
        if i < n {
            assert(s@.skip(i as int)[0] == s@[i as int]);
        } else {
            assert(s@.skip(i as int).len() == 0);
        }
    }
    let mut j: usize = n;
    assert(s@.skip(i as int) =~= s@.subrange(i as int, n as int));
    while j > i && is_whitespace(s[j - 1])
        invariant
            i <= j <= n == s@.len(),
            trim_end(s@.skip(i as int)) == trim_end(s@.subrange(i as int, j as int)),
        decreases j,
    {
        assert(s@.subrange(i as int, j as int).drop_last() =~= s@.subrange(i as int, j - 1));
        j -= 1;
    }
    assert(trim_end(s@.subrange(i as int, j as int)) == s@.subrange(i as int, j as int)) by {
        if j > i {
            assert(s@.subrange(i as int, j as int).last() == s@[j - 1]);
        }
    }
    (i, j)
}

/// Whether `s` with leading and trailing whitespace removed reads `t`.
pub fn trimmed_equals(s: &Vec<char>, t: &str) -> (r: bool)
    ensures
        r == (trim(s@) == t@),
{
    let (i, j) = trim_bounds(s);
    let tc = str_chars(t);
    if j - i != tc.len() {
        assert(trim(s@).len() != t@.len());
        return false;
    }
    let mut k: usize = 0;
    while k < tc.len()
        invariant
            i <= j <= s@.len(),
            j - i == tc@.len(),
            trim(s@) == s@.subrange(i as int, j as int),
            tc@ == t@,
            k <= tc@.len(),
            forall|m: int| 0 <= m < k ==> s@[i + m] == tc@[m],
        decreases tc.len() - k,
    {
        if s[i + k] != tc[k] {
            assert(trim(s@)[k as int] != t@[k as int]);
            return false;
        }
        k += 1;
    }
    assert(trim(s@) =~= t@);
    true
}

/// The pieces of `s` between occurrences of `sep` (one more than there are
/// occurrences), as `str::split` gives them.
pub open spec fn pieces(s: Seq<char>, sep: char) -> Seq<Seq<char>>
    decreases s.len(),
{
    if s.len() == 0 {
        seq![Seq::empty()]
    } else {
        let rest = pieces(s.drop_last(), sep);
        if s.last() == sep {
            rest.push(Seq::empty())
        } else {
            rest.update(rest.len() - 1, rest.last().push(s.last()))
        }
    }
}

/// The pieces of `s` between newlines.
pub open spec fn newline_pieces(s: Seq<char>) -> Seq<Seq<char>> {
    pieces(s, '\n')
}

proof fn lemma_pieces_len(s: Seq<char>, sep: char)
    ensures
        pieces(s, sep).len() >= 1,
    decreases s.len(),
{
    if s.len() > 0 {
        lemma_pieces_len(s.drop_last(), sep);
    }
}

/// `s` cut at every `sep`, as `str::split` with a single character does.
pub fn split_on(s: &str, sep: char) -> (r: Vec<String>)
    ensures
        r@.map_values(|p: String| p@) == pieces(s@, sep),
{
    let chars = str_chars(s);
    let mut done: Vec<String> = Vec::new();
    let mut current: Vec<char> = Vec::new();
    let mut i: usize = 0;
    proof {
        assert(chars@.take(0) =~= Seq::<char>::empty());
    }
    while i < chars.len()
        invariant
            i <= chars@.len(),
            chars@ == s@,
            ({
                let p = pieces(chars@.take(i as int), sep);
                &&& done@.map_values(|p: String| p@) == p.drop_last()
                &&& current@ == p.last()
            }),
        decreases chars.len() - i,
    {
        let c = chars[i];
        proof {
            assert(chars@.take(i + 1).drop_last() =~= chars@.take(i as int));
            lemma_pieces_len(chars@.take(i as int), sep);
        }
        if c == sep {
            let piece = chars_to_string(&current, 0, current.len());
            assert(current@.subrange(0, current@.len() as int) =~= current@);
            let ghost before = done@;
            done.push(piece);
            current = Vec::new();
            proof {
                let p = pieces(chars@.take(i as int), sep);
                let q = pieces(chars@.take(i + 1), sep);
                assert(q.drop_last() =~= p);
                assert(p =~= p.drop_last().push(p.last()));
                assert(done@.map_values(|p: String| p@) =~= before.map_values(|p: String| p@).push(
                    p.last(),
                ));
            }
        } else {
            current.push(c);
            proof {
                let p = pieces(chars@.take(i as int), sep);
                let q = pieces(chars@.take(i + 1), sep);
                assert(q.drop_last() =~= p.drop_last());
            }
        }
        i += 1;
    }
    proof {
        assert(chars@.take(i as int) =~= chars@);
        lemma_pieces_len(chars@, sep);
    }
    let piece = chars_to_string(&current, 0, current.len());
    assert(current@.subrange(0, current@.len() as int) =~= current@);
    let ghost before = done@;
    done.push(piece);
    proof {
        let p = pieces(chars@, sep);
        assert(p =~= p.drop_last().push(p.last()));
        assert(done@.map_values(|p: String| p@) =~= before.map_values(|p: String| p@).push(p.last()));
    }
    done
}

/// `parts` with `sep` between each two of them, as `join` on a slice of
/// strings gives it.
pub open spec fn join_spec(parts: Seq<Seq<char>>, sep: Seq<char>) -> Seq<char>
    decreases parts.len(),
{
    if parts.len() == 0 {
        Seq::empty()
    } else if parts.len() == 1 {
        parts[0]
    } else {
        join_spec(parts.drop_last(), sep) + sep + parts.last()
    }
}

/// `parts` with `sep` between each two of them.
pub fn join(parts: &Vec<String>, sep: &str) -> (r: String)
    ensures
        r@ == join_spec(parts@.map_values(|p: String| p@), sep@),
{
    let ghost all = parts@.map_values(|p: String| p@);
    let mut out = String::new();
    let mut i: usize = 0;
    while i < parts.len()
        invariant
            i <= parts@.len(),
            all == parts@.map_values(|p: String| p@),
            out@ == join_spec(all.take(i as int), sep@),
        decreases parts.len() - i,
    {
        proof {
            assert(all.take(i + 1).drop_last() =~= all.take(i as int));
        }
        if i > 0 {
            push_str(&mut out, sep);
        }
        push_str(&mut out, parts[i].as_str());
        proof {
            if i == 0 {
                assert(out@ =~= all.take(1)[0]);
            }
        }
        i += 1;
    }
    assert(all.take(i as int) =~= all);
    out
}

/// A line ended by `\r\n` loses its `\r`.
pub open spec fn strip_cr(l: Seq<char>) -> Seq<char> {
    if l.len() > 0 && l.last() == '\r' {
        l.drop_last()
    } else {
        l
    }
}

/// The lines of `s`, as `str::lines` gives them: split at `\n`, a `\r`
/// just before a `\n` dropped, and no empty last line after a final
/// newline.
pub open spec fn lines_spec(s: Seq<char>) -> Seq<Seq<char>> {
    let p = newline_pieces(s);
    let body = p.drop_last().map_values(|l: Seq<char>| strip_cr(l));
    if p.last().len() == 0 {
        body
    } else {
        body.push(p.last())
    }
}

pub open spec fn char_lines_view(v: Seq<Vec<char>>) -> Seq<Seq<char>> {
    v.map_values(|l: Vec<char>| l@)
}

proof fn lemma_newline_pieces_len(s: Seq<char>)
    ensures
        newline_pieces(s).len() >= 1,
{
    lemma_pieces_len(s, '\n');
}

fn strip_cr_vec(l: Vec<char>) -> (r: Vec<char>)
    ensures
        r@ == strip_cr(l@),
{
    let mut l = l;
    if l.len() > 0 && l[l.len() - 1] == '\r' {
        l.pop();
    }
    l
}

/// The lines of `s`, as `str::lines` splits them.
pub fn lines_of(s: &Vec<char>) -> (r: Vec<Vec<char>>)
    ensures
        char_lines_view(r@) == lines_spec(s@),
{
    let mut done: Vec<Vec<char>> = Vec::new();
    let mut current: Vec<char> = Vec::new();
    let mut i: usize = 0;
    proof {
        assert(s@.take(0) =~= Seq::<char>::empty());
    }
    while i < s.len()
        invariant
            i <= s@.len(),
            ({
                let p = newline_pieces(s@.take(i as int));
                &&& char_lines_view(done@) == p.drop_last().map_values(|l: Seq<char>| strip_cr(l))
                &&& current@ == p.last()
            }),
        decreases s.len() - i,
    {
        let c = s[i];
        proof {
            assert(s@.take(i + 1).drop_last() =~= s@.take(i as int));
            lemma_newline_pieces_len(s@.take(i as int));
        }
        if c == '\n' {
            let mut line: Vec<char> = Vec::new();
            std::mem::swap(&mut line, &mut current);
            let line = strip_cr_vec(line);
            let ghost before = done@;
            done.push(line);
            proof {
                let p = newline_pieces(s@.take(i as int));
                let q = newline_pieces(s@.take(i + 1));
                assert(q == p.push(Seq::<char>::empty()));
                assert(q.drop_last() =~= p);
                assert(p =~= p.drop_last().push(p.last()));
                assert(char_lines_view(done@) =~= char_lines_view(before).push(strip_cr(p.last())));
                assert(char_lines_view(done@) =~= q.drop_last().map_values(|l: Seq<char>| strip_cr(l)));
            }
        } else {
            current.push(c);
            proof {
                let p = newline_pieces(s@.take(i as int));
                let q = newline_pieces(s@.take(i + 1));
                assert(q.drop_last() =~= p.drop_last());
            }
        }
        i += 1;
    }
    proof {
        assert(s@.take(i as int) =~= s@);
        lemma_newline_pieces_len(s@);
    }
    if current.len() > 0 {
        let ghost before = done@;
        done.push(current);
        assert(char_lines_view(done@) =~= char_lines_view(before).push(newline_pieces(s@).last()));
    }
    done
}

/// Joining the pieces of `s` between occurrences of `sep` with `sep` again
/// gives back `s`.
pub proof fn lemma_join_pieces(s: Seq<char>, sep: char)
    ensures
        join_spec(pieces(s, sep), seq![sep]) == s,
    decreases s.len(),
{
    if s.len() == 0 {
        assert(join_spec(seq![Seq::<char>::empty()], seq![sep]) == Seq::<char>::empty());
    } else {
        let rest = pieces(s.drop_last(), sep);
        lemma_join_pieces(s.drop_last(), sep);
        lemma_pieces_len(s.drop_last(), sep);
        assert(s.drop_last().push(s.last()) =~= s);
        if s.last() == sep {
            let p = rest.push(Seq::<char>::empty());
            assert(p.drop_last() =~= rest);
            assert(join_spec(p, seq![sep]) =~= join_spec(rest, seq![sep]) + seq![sep]);
        } else {
            let p = rest.update(rest.len() - 1, rest.last().push(s.last()));
            lemma_join_update_last(rest, seq![sep], s.last());
        }
    }
}

/// Extending the last part by one character extends the joined text by it.
proof fn lemma_join_update_last(parts: Seq<Seq<char>>, sep: Seq<char>, c: char)
    requires
        parts.len() >= 1,
    ensures
        join_spec(parts.update(parts.len() - 1, parts.last().push(c)), sep) == join_spec(parts, sep).push(c),
{
    let p = parts.update(parts.len() - 1, parts.last().push(c));
    if parts.len() == 1 {
        assert(join_spec(p, sep) == p[0]);
    } else {
        assert(p.drop_last() =~= parts.drop_last());
        assert(join_spec(p, sep) =~= join_spec(parts, sep).push(c));
    }
}

/// Leading spaces do not change what trimming the start leaves.
pub proof fn lemma_trim_start_spaces(n: nat, x: Seq<char>)
    ensures
        trim_start(repeat_char(' ', n) + x) == trim_start(x),
    decreases n,
{
    if n > 0 {
        let s = repeat_char(' ', n) + x;
        assert(s[0] == ' ');
        assert(s.drop_first() =~= repeat_char(' ', (n - 1) as nat) + x);
        lemma_trim_start_spaces((n - 1) as nat, x);
    } else {
        assert(repeat_char(' ', n) + x =~= x);
    }
}

/// Trimming the end keeps a first character that is not whitespace.
proof fn lemma_trim_end_keeps_first(x: Seq<char>)
    requires
        x.len() > 0,
        !is_whitespace_spec(x[0]),
    ensures
        trim_end(x).len() > 0,
        trim_end(x)[0] == x[0],
    decreases x.len(),
{
    if x.len() > 1 && is_whitespace_spec(x.last()) {
        lemma_trim_end_keeps_first(x.drop_last());
    }
}

/// A text that starts with `n` spaces and then a character that is not
/// whitespace reads, once trimmed, from that character on.
pub proof fn lemma_trim_first_char(n: nat, x: Seq<char>)
    requires
        x.len() > 0,
        !is_whitespace_spec(x[0]),
    ensures
        trim(repeat_char(' ', n) + x).len() > 0,
        trim(repeat_char(' ', n) + x)[0] == x[0],
{
    lemma_trim_start_spaces(n, x);
    assert(trim_start(x) == x);
    lemma_trim_end_keeps_first(x);
}

/// Trimming leaves part of the text: never more characters, and none that
/// the text lacks.
pub proof fn lemma_trim_within(s: Seq<char>, c: char)
    ensures
        trim(s).len() <= s.len(),
        (forall|j: int| 0 <= j < s.len() ==> s[j] != c) ==> (forall|k: int|
            0 <= k < trim(s).len() ==> trim(s)[k] != c),
{
    lemma_trim_start_within(s, c);
    lemma_trim_end_within(trim_start(s), c);
}

proof fn lemma_trim_start_within(s: Seq<char>, c: char)
    ensures
        trim_start(s).len() <= s.len(),
        (forall|j: int| 0 <= j < s.len() ==> s[j] != c) ==> (forall|k: int|
            0 <= k < trim_start(s).len() ==> trim_start(s)[k] != c),
    decreases s.len(),
{
    if s.len() > 0 && is_whitespace_spec(s[0]) {
        lemma_trim_start_within(s.drop_first(), c);
        if forall|j: int| 0 <= j < s.len() ==> s[j] != c {
            assert forall|j: int| 0 <= j < s.drop_first().len() implies s.drop_first()[j] != c by {
                assert(s.drop_first()[j] == s[j + 1]);
            }
        }
    }
}

proof fn lemma_trim_end_within(s: Seq<char>, c: char)
    ensures
        trim_end(s).len() <= s.len(),
        (forall|j: int| 0 <= j < s.len() ==> s[j] != c) ==> (forall|k: int|
            0 <= k < trim_end(s).len() ==> trim_end(s)[k] != c),
    decreases s.len(),
{
    if s.len() > 0 && is_whitespace_spec(s.last()) {
        lemma_trim_end_within(s.drop_last(), c);
        if forall|j: int| 0 <= j < s.len() ==> s[j] != c {
            assert forall|j: int| 0 <= j < s.drop_last().len() implies s.drop_last()[j] != c by {
                assert(s.drop_last()[j] == s[j]);
            }
        }
    }
}

/// A text that neither starts nor ends with whitespace is its own trim.
pub proof fn lemma_trim_unchanged(s: Seq<char>)
    requires
        s.len() > 0,
        !is_whitespace_spec(s[0]),
        !is_whitespace_spec(s.last()),
    ensures
        trim(s) == s,
{
}

/// The text of `lines` written one after the other, each ended by a
/// newline.
pub open spec fn text_of(lines: Seq<Seq<char>>) -> Seq<char>
    decreases lines.len(),
{
    if lines.len() == 0 {
        Seq::empty()
    } else {
        text_of(lines.drop_last()) + lines.last() + seq!['\n']
    }
}

/// A line that `str::lines` gives back as it is: no newline in it, no
/// carriage return at its end.
pub open spec fn plain_line(l: Seq<char>) -> bool {
    &&& forall|j: int| 0 <= j < l.len() ==> l[j] != '\n'
    &&& !(l.len() > 0 && l.last() == '\r')
}

proof fn lemma_pieces_extend(t: Seq<char>, l: Seq<char>, sep: char)
    requires
        forall|j: int| 0 <= j < l.len() ==> l[j] != sep,
    ensures
        pieces(t + l, sep) == pieces(t, sep).update(
            pieces(t, sep).len() - 1,
            pieces(t, sep).last() + l,
        ),
    decreases l.len(),
{
    lemma_pieces_len(t, sep);
    if l.len() == 0 {
        assert(t + l =~= t);
        assert(pieces(t, sep).last() + l =~= pieces(t, sep).last());
        assert(pieces(t, sep).update(pieces(t, sep).len() - 1, pieces(t, sep).last()) =~= pieces(t, sep));
    } else {
        let l0 = l.drop_last();
        assert(forall|j: int| 0 <= j < l0.len() ==> l0[j] == l[j]);
        lemma_pieces_extend(t, l0, sep);
        assert((t + l).drop_last() =~= t + l0);
        assert((t + l).last() == l.last());
        let p = pieces(t, sep);
        assert(pieces(t + l, sep) =~= p.update(p.len() - 1, p.last() + l0).update(
            p.len() - 1,
            (p.last() + l0).push(l.last()),
        ));
        assert((p.last() + l0).push(l.last()) =~= p.last() + l);
        assert(pieces(t + l, sep) =~= p.update(p.len() - 1, p.last() + l));
    }
}

/// The pieces of the text of `lines` between newlines: the lines, and an
/// empty piece after the last newline.
proof fn lemma_pieces_text_of(lines: Seq<Seq<char>>)
    requires
        forall|i: int| 0 <= i < lines.len() ==> plain_line(#[trigger] lines[i]),
    ensures
        pieces(text_of(lines), '\n') == lines.push(Seq::empty()),
    decreases lines.len(),
{
    if lines.len() == 0 {
        assert(pieces(Seq::<char>::empty(), '\n') =~= seq![Seq::<char>::empty()]);
        assert(lines.push(Seq::empty()) =~= seq![Seq::<char>::empty()]);
    } else {
        let init = lines.drop_last();
        assert(forall|i: int| 0 <= i < init.len() ==> init[i] == lines[i]);
        lemma_pieces_text_of(init);
        let t = text_of(init);
        let l = lines.last();
        assert(plain_line(lines[lines.len() - 1]));
        lemma_pieces_extend(t, l, '\n');
        let p = pieces(t, '\n');
        assert(p.last() =~= Seq::<char>::empty());
        let q = p.update(p.len() - 1, p.last() + l);
        assert(text_of(lines) == (t + l) + seq!['\n']);
        assert((t + l + seq!['\n']).drop_last() =~= t + l);
        assert(pieces(text_of(lines), '\n') == q.push(Seq::empty()));
        assert(q =~= lines);
    }
}

/// `str::lines` gives back lines written one per line.
pub proof fn lemma_lines_of_text(lines: Seq<Seq<char>>)
    requires
        forall|i: int| 0 <= i < lines.len() ==> plain_line(#[trigger] lines[i]),
    ensures
        lines_spec(text_of(lines)) == lines,
{
    lemma_pieces_text_of(lines);
    let p = newline_pieces(text_of(lines));
    assert(p.drop_last() =~= lines);
    assert(p.drop_last().map_values(|l: Seq<char>| strip_cr(l)) =~= lines) by {
        assert forall|i: int| 0 <= i < lines.len() implies strip_cr(#[trigger] lines[i]) == lines[i] by {
            assert(plain_line(lines[i]));
        }
    }
}

} // verus!
