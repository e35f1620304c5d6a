//! The PGN tag parser. A PGN text blob carries header lines of the shape
//! `[TagName "Tag Value"]`, one per line; the parser collects them into a
//! tag map, a later line overriding an earlier one with the same name.
//! Lines that are not tag lines, and malformed tag lines, are dropped
//! without failing the parse: absence of a tag is a normal outcome that
//! later stages treat as "skip this game".

use vstd::prelude::*;
use vstd::string::StrSliceExecFns;

use crate::kvmap::{insert_all, lemma_insert_all_append, StrKeyMap};

verus! {

/// The index of the first occurrence of `c` in `s` at or after `from`.
pub open spec fn find_char(s: Seq<char>, c: char, from: int) -> Option<int>
    decreases s.len() - from,
{
    if from < 0 || from >= s.len() {
        None
    } else if s[from] == c {
        Some(from)
    } else {
        find_char(s, c, from + 1)
    }
}

/// The index of the last occurrence of `c` in `s`.
pub open spec fn rfind_char(s: Seq<char>, c: char) -> Option<int>
    decreases s.len(),
{
    if s.len() == 0 {
        None
    } else if s[s.len() - 1] == c {
        Some(s.len() - 1)
    } else {
        rfind_char(s.drop_last(), c)
    }
}

proof fn lemma_find_char_at(s: Seq<char>, c: char, from: int, i: int)
    requires
        0 <= from <= i < s.len(),
        s[i] == c,
        forall|j: int| from <= j < i ==> s[j] != c,
    ensures
        find_char(s, c, from) == Some(i),
    decreases i - from,
{
    if from < i {
        lemma_find_char_at(s, c, from + 1, i);
    }
}

proof fn lemma_find_char_none(s: Seq<char>, c: char, from: int)
    requires
        0 <= from,
        forall|j: int| from <= j < s.len() ==> s[j] != c,
    ensures
        find_char(s, c, from) is None,
    decreases s.len() - from,
{
    if from < s.len() {
        lemma_find_char_none(s, c, from + 1);
    }
}

proof fn lemma_rfind_char_at(s: Seq<char>, c: char, i: int)
    requires
        0 <= i < s.len(),
        s[i] == c,
        forall|j: int| i < j < s.len() ==> s[j] != c,
    ensures
        rfind_char(s, c) == Some(i),
    decreases s.len(),
{
    if i < s.len() - 1 {
        assert(s.drop_last()[i] == s[i]);
        lemma_rfind_char_at(s.drop_last(), c, i);
    }
}

proof fn lemma_rfind_char_none(s: Seq<char>, c: char)
    requires
        forall|j: int| 0 <= j < s.len() ==> s[j] != c,
    ensures
        rfind_char(s, c) is None,
    decreases s.len(),
{
    if s.len() > 0 {
        lemma_rfind_char_none(s.drop_last(), c);
    }
}

/// Finds the first occurrence of `c` in `s` at or after `from`.
pub fn find_char_from(s: &str, c: char, from: usize) -> (r: Option<usize>)
    requires
        from <= s@.len(),
    ensures
        (match r {
            Some(i) => from <= i < s@.len() && find_char(s@, c, from as int) == Some(i as int),
            None => find_char(s@, c, from as int) is None,
        }),
{
    let n: usize = s.unicode_len();
    let mut i: usize = from;
    while i < n
        invariant
            n == s@.len(),
            from <= i <= n,
            forall|j: int| from <= j < i ==> s@[j] != c,
        decreases n - i,
    {
        if s.get_char(i) == c {
            proof {
                lemma_find_char_at(s@, c, from as int, i as int);
            }
            return Some(i);
        }
        i = i + 1;
    }
    proof {
        lemma_find_char_none(s@, c, from as int);
    }
    None
}

/// Finds the last occurrence of `c` in `s`.
pub fn rfind_char_in(s: &str, c: char) -> (r: Option<usize>)
    ensures
        (match r {
            Some(i) => i < s@.len() && rfind_char(s@, c) == Some(i as int),
            None => rfind_char(s@, c) is None,
        }),
{
    let n: usize = s.unicode_len();
    let mut i: usize = n;
    while i > 0
        invariant
            n == s@.len(),
            0 <= i <= n,
            forall|j: int| i <= j < n ==> s@[j] != c,
        decreases i,
    {
        let j: usize = i - 1;
        if s.get_char(j) == c {
            proof {
                lemma_rfind_char_at(s@, c, j as int);
            }
            return Some(j);
        }
        i = j;
    }
    proof {
        lemma_rfind_char_none(s@, c);
    }
    None
}

/// What one line contributes: `Some((name, value))` when the line has the
/// shape `[Name "Value"]` — an opening bracket, a non-empty name up to the
/// first space, a double quote, then the value up to the last double
/// quote, which the closing bracket must follow. Anything after the
/// closing bracket is ignored; any other line contributes nothing.
pub open spec fn tag_line(line: Seq<char>) -> Option<(Seq<char>, Seq<char>)> {
    if line.len() == 0 || line[0] != '[' {
        None
    } else {
        match find_char(line, ' ', 0) {
            None => None,
            Some(sp) => if sp < 2 || sp + 1 >= line.len() || line[sp + 1] != '"' {
                None
            } else {
                match rfind_char(line, '"') {
                    None => None,
                    Some(q) => if q <= sp + 1 || q + 1 >= line.len() || line[q + 1] != ']' {
                        None
                    } else {
                        Some((line.subrange(1, sp), line.subrange(sp + 2, q)))
                    },
                }
            },
        }
    }
}

/// The tag pairs of one line, in sequence form: one pair or none.
pub open spec fn line_pairs(line: Seq<char>) -> Seq<(Seq<char>, Seq<char>)> {
    match tag_line(line) {
        Some(kv) => seq![kv],
        None => Seq::empty(),
    }
}

/// The tag pairs of a text, line by line; `cur` is the part of the
/// current line already read.
pub open spec fn tag_pairs_acc(text: Seq<char>, cur: Seq<char>) -> Seq<(Seq<char>, Seq<char>)>
    decreases text.len(),
{
    if text.len() == 0 {
        line_pairs(cur)
    } else if text[0] == '\n' {
        line_pairs(cur) + tag_pairs_acc(text.drop_first(), Seq::empty())
    } else {
        tag_pairs_acc(text.drop_first(), cur.push(text[0]))
    }
}

/// Every tag pair of the text, in line order.
pub open spec fn tag_pairs(text: Seq<char>) -> Seq<(Seq<char>, Seq<char>)> {
    tag_pairs_acc(text, Seq::empty())
}

/// The tag map of a PGN text: its tag pairs folded in line order, a later
/// line overriding an earlier one with the same name.
pub open spec fn parse_tags_spec(text: Seq<char>) -> Map<Seq<char>, Seq<char>> {
    insert_all(Map::empty(), tag_pairs(text))
}

/// A tag map: tag names mapped to tag values.
pub type TagMap = StrKeyMap<String>;

/// Parses one line, yielding the tag pair exactly when [`tag_line`] does.
pub fn parse_line(line: &str) -> (r: Option<(String, String)>)
    ensures
        (match r {
            Some(kv) => tag_line(line@) == Some((kv.0@, kv.1@)),
            None => tag_line(line@) is None,
        }),
{
    let n: usize = line.unicode_len();
    if n == 0 {
        return None;
    }
    if line.get_char(0) != '[' {
        return None;
    }
    let sp: usize = match find_char_from(line, ' ', 0) {
        Some(sp) => sp,
        None => {
            return None;
        },
    };
    if sp < 2 {
        return None;
    }
    if sp + 1 >= n {
        return None;
    }
    if line.get_char(sp + 1) != '"' {
        return None;
    }
    let q: usize = match rfind_char_in(line, '"') {
        Some(q) => q,
        None => {
            return None;
        },
    };
    if q <= sp + 1 {
        return None;
    }
    if q + 1 >= n {
        return None;
    }
    if line.get_char(q + 1) != ']' {
        return None;
    }
    let name: String = line.substring_char(1, sp).to_owned();
    let value: String = line.substring_char(sp + 2, q).to_owned();
    Some((name, value))
}

/// Parses every header line of a PGN text into a tag map. Lines that are
/// not well-formed tag lines are dropped; zero tags found is not an
/// error. A repeated tag name keeps the last occurrence.
pub fn parse_tags(text: &str) -> (r: TagMap)
    ensures
        r.wf(),
        r@ == parse_tags_spec(text@),
{
    let mut tags: TagMap = StrKeyMap::new();
    let n: usize = text.unicode_len();
    let mut start: usize = 0;
    let mut i: usize = 0;
    proof {
        assert(text@.skip(0) =~= text@);
        assert(text@.subrange(0, 0) =~= Seq::<char>::empty());
    }
    while i < n
        invariant
            n == text@.len(),
            0 <= start <= i <= n,
            tags.wf(),
            insert_all(
                tags@,
                tag_pairs_acc(text@.skip(i as int), text@.subrange(start as int, i as int)),
            ) == parse_tags_spec(text@),
        decreases n - i,
    {
        let c: char = text.get_char(i);
        if c == '\n' {
            let line: &str = text.substring_char(start, i);
            let ghost pre_tags = tags@;
            let ghost cur = text@.subrange(start as int, i as int);
            match parse_line(line) {
                Some(kv) => {
                    let (name, value) = kv;
                    let ghost k = name@;
                    let ghost v = value@;
                    tags.insert(name, value);
                    proof {
                        assert(line_pairs(cur) =~= seq![(k, v)]);
                        assert(seq![(k, v)].drop_last() =~= Seq::<(Seq<char>, Seq<char>)>::empty());
                        assert(insert_all(pre_tags, Seq::<(Seq<char>, Seq<char>)>::empty())
                            == pre_tags);
                        assert(seq![(k, v)].last() == (k, v));
                        assert(insert_all(pre_tags, seq![(k, v)]) == pre_tags.insert(k, v));
                        assert(insert_all(pre_tags, line_pairs(cur)) == pre_tags.insert(k, v));
                    }
                },
                None => {
                    proof {
                        assert(line_pairs(cur) =~= Seq::<(Seq<char>, Seq<char>)>::empty());
                    }
                },
            }
            proof {
                let rest = text@.skip(i as int);
                assert(rest.len() > 0 && rest[0] == '\n');
                assert(rest.drop_first() =~= text@.skip(i as int + 1));
                lemma_insert_all_append(
                    pre_tags,
                    line_pairs(cur),
                    tag_pairs_acc(text@.skip(i as int + 1), Seq::<char>::empty()),
                );
                assert(text@.subrange(i as int + 1, i as int + 1) =~= Seq::<char>::empty());
            }
            i = i + 1;
            start = i;
        } else {
            proof {
                let rest = text@.skip(i as int);
                assert(rest.len() > 0 && rest[0] == c && c != '\n');
                assert(rest.drop_first() =~= text@.skip(i as int + 1));
                assert(text@.subrange(start as int, i as int).push(text@[i as int]) =~= text@
                    .subrange(start as int, i as int + 1));
            }
            i = i + 1;
        }
    }
    let line: &str = text.substring_char(start, n);
    let ghost pre_tags = tags@;
    let ghost cur = text@.subrange(start as int, n as int);
    proof {
        assert(text@.skip(n as int) =~= Seq::<char>::empty());
    }
    match parse_line(line) {
        Some(kv) => {
            let (name, value) = kv;
            let ghost k = name@;
            let ghost v = value@;
            tags.insert(name, value);
            proof {
                assert(line_pairs(cur) =~= seq![(k, v)]);
                assert(seq![(k, v)].drop_last() =~= Seq::<(Seq<char>, Seq<char>)>::empty());
                assert(insert_all(pre_tags, Seq::<(Seq<char>, Seq<char>)>::empty()) == pre_tags);
                assert(seq![(k, v)].last() == (k, v));
                assert(insert_all(pre_tags, seq![(k, v)]) == pre_tags.insert(k, v));
                assert(insert_all(pre_tags, line_pairs(cur)) == pre_tags.insert(k, v));
            }
        },
        None => {
            proof {
                assert(line_pairs(cur) =~= Seq::<(Seq<char>, Seq<char>)>::empty());
            }
        },
    }
    tags
}

/// The value a tag map holds for a name, or the empty string.
pub open spec fn tag_or_empty(m: Map<Seq<char>, Seq<char>>, key: Seq<char>) -> Seq<char> {
    if m.contains_key(key) {
        m[key]
    } else {
        Seq::empty()
    }
}

/// The tag values the rest of the pipeline reads.
pub struct ParsedPgnTags {
    pub black: String,
    pub white: String,
    pub eco: String,
    pub eco_url: String,
}

impl ParsedPgnTags {
    /// Gathers the tags of interest from a parsed tag map. Without both
    /// player tags the game cannot be classified at all, so those are
    /// required; the ECO code and URL default to empty when absent.
    pub fn from_tag_map(tags: &TagMap) -> (r: Option<ParsedPgnTags>)
        requires
            tags.wf(),
        ensures
            (match r {
                Some(p) => tags@.contains_key("Black"@) && tags@.contains_key("White"@) && p.black@
                    == tags@["Black"@] && p.white@ == tags@["White"@] && p.eco@ == tag_or_empty(
                    tags@,
                    "ECO"@,
                ) && p.eco_url@ == tag_or_empty(tags@, "ECOUrl"@),
                None => !tags@.contains_key("Black"@) || !tags@.contains_key("White"@),
            }),
    {
        let black: String = match tags.get("Black") {
            Some(v) => v.clone(),
            None => {
                return None;
            },
        };
        let white: String = match tags.get("White") {
            Some(v) => v.clone(),
            None => {
                return None;
            },
        };
        let eco: String = match tags.get("ECO") {
            Some(v) => v.clone(),
            None => String::new(),
        };
        let eco_url: String = match tags.get("ECOUrl") {
            Some(v) => v.clone(),
            None => String::new(),
        };
        Some(ParsedPgnTags { black, white, eco, eco_url })
    }
}

} // verus!
