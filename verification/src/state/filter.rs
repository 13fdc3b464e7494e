use vstd::prelude::*;
use vstd::string::StrSliceExecFns;

use crate::text::chars_to_string;

verus! {

/// One level of a hierarchical name filter.
pub enum BrowserFilterSection {
    Wildcard,
    WildcardDouble,
    WildcardBefore(String),
    WildcardAfter(String),
    WildcardBoth(String),
    Match(String),
}

pub enum BrowserFilterSectionView {
    Wildcard,
    WildcardDouble,
    WildcardBefore(Seq<char>),
    WildcardAfter(Seq<char>),
    WildcardBoth(Seq<char>),
    Match(Seq<char>),
}

impl View for BrowserFilterSection {
    type V = BrowserFilterSectionView;

    open spec fn view(&self) -> BrowserFilterSectionView {
        match self {
            BrowserFilterSection::Wildcard => BrowserFilterSectionView::Wildcard,
            BrowserFilterSection::WildcardDouble => BrowserFilterSectionView::WildcardDouble,
            BrowserFilterSection::WildcardBefore(s) => BrowserFilterSectionView::WildcardBefore(s@),
            BrowserFilterSection::WildcardAfter(s) => BrowserFilterSectionView::WildcardAfter(s@),
            BrowserFilterSection::WildcardBoth(s) => BrowserFilterSectionView::WildcardBoth(s@),
            BrowserFilterSection::Match(s) => BrowserFilterSectionView::Match(s@),
        }
    }
}

/// Levels of a filter are separated by `.` or `/`.
pub open spec fn is_separator(c: char) -> bool {
    c == '.' || c == '/'
}

/// The levels of a filter, in order (an empty filter has one empty level).
pub open spec fn split_sections(s: Seq<char>) -> Seq<Seq<char>>
    decreases s.len(),
{
    if s.len() == 0 {
        seq![Seq::empty()]
    } else {
        let r = split_sections(s.drop_last());
        if is_separator(s.last()) {
            r.push(Seq::empty())
        } else {
            r.update(r.len() - 1, r.last().push(s.last()))
        }
    }
}

/// Bytes of the UTF-8 encoding of `c`.
pub open spec fn utf8_len(c: char) -> nat {
    if (c as u32) < 0x80 {
        1
    } else if (c as u32) < 0x800 {
        2
    } else if (c as u32) < 0x10000 {
        3
    } else {
        4
    }
}

/// Bytes of the UTF-8 encoding of `s`.
pub open spec fn byte_len(s: Seq<char>) -> nat
    decreases s.len(),
{
    if s.len() == 0 {
        0
    } else {
        byte_len(s.drop_last()) + utf8_len(s.last())
    }
}

pub open spec fn is_ascii_char(c: char) -> bool {
    (c as u32) < 0x80
}

/// A level of two or more bytes can be cut after its first byte and before
/// its last one: its first and last characters are ASCII.
pub open spec fn section_cuttable(s: Seq<char>) -> bool {
    byte_len(s) >= 2 ==> s.len() > 0 && is_ascii_char(s[0]) && is_ascii_char(s.last())
}

/// How a level is read: `*` alone, `**`, or a `*` before, after or on both
/// sides of a name; anything else must match as it is.
pub open spec fn classify_section(s: Seq<char>) -> BrowserFilterSectionView {
    if byte_len(s) <= 1 {
        if s == seq!['*'] {
            BrowserFilterSectionView::Wildcard
        } else {
            BrowserFilterSectionView::Match(s)
        }
    } else if s[0] == '*' && s.last() == '*' {
        if byte_len(s) == 2 {
            BrowserFilterSectionView::WildcardDouble
        } else {
            BrowserFilterSectionView::WildcardBoth(s.subrange(1, s.len() - 1))
        }
    } else if s[0] == '*' {
        BrowserFilterSectionView::WildcardBefore(s.drop_first())
    } else if s.last() == '*' {
        BrowserFilterSectionView::WildcardAfter(s.drop_last())
    } else {
        BrowserFilterSectionView::Match(s)
    }
}

pub open spec fn filter_cuttable(filter: Seq<char>) -> bool {
    forall|i: int|
        0 <= i < split_sections(filter).len() ==> section_cuttable(
            #[trigger] split_sections(filter)[i],
        )
}

proof fn lemma_byte_len_ge_len(s: Seq<char>)
    ensures
        byte_len(s) >= s.len(),
    decreases s.len(),
{
    if s.len() > 0 {
        lemma_byte_len_ge_len(s.drop_last());
    }
}

proof fn lemma_byte_len_single(s: Seq<char>)
    requires
        s.len() == 1,
    ensures
        byte_len(s) == utf8_len(s[0]),
{
    assert(s.drop_last() =~= Seq::<char>::empty());
    assert(byte_len(Seq::<char>::empty()) == 0);
    assert(s.last() == s[0]);
}

proof fn lemma_split_nonempty(s: Seq<char>)
    ensures
        split_sections(s).len() >= 1,
    decreases s.len(),
{
    if s.len() > 0 {
        lemma_split_nonempty(s.drop_last());
    }
}

/// Reads one level.
fn make_section(sec: &Vec<char>, bytes: usize) -> (r: BrowserFilterSection)
    requires
        section_cuttable(sec@),
        bytes == if byte_len(sec@) < 3 {
            byte_len(sec@)
        } else {
            3
        },
    ensures
        r@ == classify_section(sec@),
{
    proof {
        lemma_byte_len_ge_len(sec@);
        if sec@.len() == 1 {
            lemma_byte_len_single(sec@);
        }
    }
    let n = sec.len();
    assert(sec@.subrange(0, n as int) =~= sec@);
    if bytes <= 1 {
        if n == 1 && sec[0] == '*' {
            assert(sec@ =~= seq!['*']);
            BrowserFilterSection::Wildcard
        } else {
            proof {
                if sec@ == seq!['*'] {
                    assert(sec@.len() == 1);
                }
            }
            BrowserFilterSection::Match(chars_to_string(sec, 0, n))
        }
    } else {
        assert(sec@.subrange(0, n as int) =~= sec@);
        let first = sec[0];
        let last = sec[n - 1];
        if first == '*' && last == '*' {
            if bytes == 2 {
                BrowserFilterSection::WildcardDouble
            } else {
                BrowserFilterSection::WildcardBoth(chars_to_string(sec, 1, n - 1))
            }
        } else if first == '*' {
            assert(sec@.subrange(1, n as int) =~= sec@.drop_first());
            BrowserFilterSection::WildcardBefore(chars_to_string(sec, 1, n))
        } else if last == '*' {
            assert(sec@.subrange(0, n - 1) =~= sec@.drop_last());
            BrowserFilterSection::WildcardAfter(chars_to_string(sec, 0, n - 1))
        } else {
            BrowserFilterSection::Match(chars_to_string(sec, 0, n))
        }
    }
}

fn char_utf8_len(c: char) -> (r: usize)
    ensures
        r == utf8_len(c),
{
    let v = c as u32;
    if v < 0x80 {
        1
    } else if v < 0x800 {
        2
    } else if v < 0x10000 {
        3
    } else {
        4
    }
}

/// Splits a filter into its levels (separated by `.` or `/`) and reads each.
pub fn construct_filter(filter: String) -> (r: Vec<BrowserFilterSection>)
    requires
        filter_cuttable(filter@),
    ensures
        r@.map_values(|f: BrowserFilterSection| f@) == split_sections(filter@).map_values(
            |s: Seq<char>| classify_section(s),
        ),
{
    let total = filter.as_str().unicode_len();
    let mut filters: Vec<BrowserFilterSection> = Vec::new();
    let mut current: Vec<char> = Vec::new();
    let mut bytes: usize = 0;
    let mut seen: usize = 0;
    proof {
        lemma_split_nonempty(filter@.take(0));
    }
    for c in it: filter.as_str().chars()
        invariant
            it.seq() == filter@,
            seen == it.index(),
            total == filter@.len(),
            filter_cuttable(filter@),
            split_sections(filter@.take(seen as int)).len() >= 1,
            ({
                let secs = split_sections(filter@.take(seen as int));
                &&& filters@.map_values(|f: BrowserFilterSection| f@) == secs.drop_last().map_values(
                    |s: Seq<char>| classify_section(s),
                )
                &&& current@ == secs.last()
                &&& bytes == if byte_len(current@) < 3 {
                    byte_len(current@)
                } else {
                    3
                }
            }),
    {
        let ghost prefix = filter@.take(seen as int);
        proof {
            assert(filter@.take(seen + 1).drop_last() =~= prefix);
            lemma_split_nonempty(prefix);
            lemma_split_prefix_cuttable(filter@, seen as int + 1);
        }
        if c == '.' || c == '/' {
            proof {
                let secs = split_sections(prefix);
                assert(split_sections(filter@.take(seen + 1)) == secs.push(Seq::empty()));
                assert(section_cuttable(secs.last())) by {
                    assert(split_sections(filter@.take(seen + 1))[secs.len() - 1] == secs.last());
                }
            }
            let ghost old_filters = filters@;
            let section = make_section(&current, bytes);
            filters.push(section);
            current = Vec::new();
            bytes = 0;
            proof {
                let secs = split_sections(prefix);
                assert(old_filters.len() == secs.len() - 1) by {
                    assert(old_filters.map_values(|f: BrowserFilterSection| f@).len()
                        == secs.drop_last().map_values(|s: Seq<char>| classify_section(s)).len());
                }
                assert forall|k: int| 0 <= k < filters@.len() implies #[trigger] filters@[k]@
                    == classify_section(secs[k]) by {
                    if k < old_filters.len() {
                        assert(filters@[k] == old_filters[k]);
                        assert(old_filters.map_values(|f: BrowserFilterSection| f@)[k]
                            == secs.drop_last().map_values(|s: Seq<char>| classify_section(s))[k]);
                        assert(secs.drop_last()[k] == secs[k]);
                    } else {
                        assert(k == secs.len() - 1);
                    }
                }
                assert(filters@.map_values(|f: BrowserFilterSection| f@) =~= secs.map_values(
                    |s: Seq<char>| classify_section(s),
                ));
                assert(secs.push(Seq::empty()).drop_last() =~= secs);
            }
        } else {
            current.push(c);
            let l = char_utf8_len(c);
            bytes = if bytes + l < 3 {
                bytes + l
            } else {
                3
            };
            proof {
                let secs = split_sections(prefix);
                let secs2 = split_sections(filter@.take(seen + 1));
                assert(secs2 == secs.update(secs.len() - 1, secs.last().push(c)));
                assert(current@.drop_last() =~= secs.last());
                assert(secs2.drop_last() =~= secs.drop_last());
            }
        }
        seen += 1;
        proof {
            lemma_split_nonempty(filter@.take(seen as int));
        }
    }
    proof {
        assert(filter@.take(seen as int) =~= filter@);
        lemma_split_nonempty(filter@);
        assert(section_cuttable(split_sections(filter@)[split_sections(filter@).len() - 1]));
    }
    let ghost old_filters = filters@;
    let section = make_section(&current, bytes);
    filters.push(section);
    proof {
        let secs = split_sections(filter@);
        assert(old_filters.len() == secs.len() - 1) by {
            assert(old_filters.map_values(|f: BrowserFilterSection| f@).len()
                == secs.drop_last().map_values(|s: Seq<char>| classify_section(s)).len());
        }
        assert forall|k: int| 0 <= k < filters@.len() implies #[trigger] filters@[k]@
            == classify_section(secs[k]) by {
            if k < old_filters.len() {
                assert(filters@[k] == old_filters[k]);
                assert(old_filters.map_values(|f: BrowserFilterSection| f@)[k]
                    == secs.drop_last().map_values(|s: Seq<char>| classify_section(s))[k]);
                assert(secs.drop_last()[k] == secs[k]);
            } else {
                assert(k == secs.len() - 1);
            }
        }
        assert(secs =~= secs.drop_last().push(secs.last()));
        assert(filters@.map_values(|f: BrowserFilterSection| f@) =~= secs.map_values(
            |s: Seq<char>| classify_section(s),
        ));
    }
    filters
}

/// Every level of a prefix of the filter, except possibly its last (still
/// growing) level, is a level of the whole filter; so each is cuttable, and
/// so is the last level once it is complete.
proof fn lemma_split_prefix_cuttable(s: Seq<char>, n: int)
    requires
        0 <= n <= s.len(),
        filter_cuttable(s),
    ensures
        forall|i: int|
            0 <= i < split_sections(s.take(n)).len() - 1 ==> section_cuttable(
                #[trigger] split_sections(s.take(n))[i],
            ),
        n < s.len() && is_separator(s[n]) ==> section_cuttable(
            split_sections(s.take(n)).last(),
        ),
        n == s.len() ==> section_cuttable(split_sections(s.take(n)).last()),
{
    lemma_split_prefix(s, n);
}

/// The levels of a prefix are a prefix of the levels, the last of which may
/// still be growing.
proof fn lemma_split_prefix(s: Seq<char>, n: int)
    requires
        0 <= n <= s.len(),
    ensures
        ({
            let p = split_sections(s.take(n));
            let a = split_sections(s);
            &&& p.len() >= 1
            &&& p.len() <= a.len()
            &&& forall|i: int| 0 <= i < p.len() - 1 ==> #[trigger] p[i] == a[i]
            &&& a[p.len() - 1].len() >= p.last().len()
            &&& a[p.len() - 1].subrange(0, p.last().len() as int) == p.last()
            &&& (n < s.len() && is_separator(s[n])) ==> a[p.len() - 1] == p.last()
            &&& n == s.len() ==> a[p.len() - 1] == p.last()
        }),
    decreases s.len() - n,
{
    lemma_split_nonempty(s.take(n));
    if n == s.len() {
        assert(s.take(n) =~= s);
        let p = split_sections(s);
        assert(p[p.len() - 1].subrange(0, p.last().len() as int) =~= p.last());
    } else {
        lemma_split_prefix(s, n + 1);
        assert(s.take(n + 1).drop_last() =~= s.take(n));
        let p = split_sections(s.take(n));
        let q = split_sections(s.take(n + 1));
        let a = split_sections(s);
        if is_separator(s[n]) {
            assert(q == p.push(Seq::empty()));
            assert(q[p.len() - 1] == p.last());
            assert(forall|i: int| 0 <= i < p.len() ==> #[trigger] p[i] == q[i]);
            assert(a[p.len() - 1].subrange(0, p.last().len() as int) =~= p.last());
        } else {
            assert(q == p.update(p.len() - 1, p.last().push(s[n])));
            assert(forall|i: int| 0 <= i < p.len() - 1 ==> #[trigger] p[i] == q[i]);
            let al = a[p.len() - 1];
            let ql = q.last();
            assert(al.subrange(0, ql.len() as int) == ql);
            assert forall|j: int| 0 <= j < p.last().len() implies #[trigger] al.subrange(
                0,
                p.last().len() as int,
            )[j] == p.last()[j] by {
                assert(al[j] == al.subrange(0, ql.len() as int)[j]);
                assert(ql[j] == p.last()[j]);
            }
            assert(al.subrange(0, p.last().len() as int) =~= p.last());
        }
    }
}

} // verus!
