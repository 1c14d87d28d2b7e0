//! Command templates with `{name}` placeholders, command records, and the
//! keyword-indexed catalog.

use vstd::prelude::*;
use vstd::string::*;
use std::rc::Rc;
use crate::text::{str_eq, string_vec_eq};

verus! {

// ---------------------------------------------------------------------------
// Template grammar: chunk ( "{" name "}" chunk )*
// ---------------------------------------------------------------------------

/// First position at or after `from` holding the character `c`, or the length
/// of `s` when there is none.
pub open spec fn find_from(s: Seq<char>, c: char, from: int) -> int
    decreases s.len() - from,
{
    if from < 0 || from >= s.len() {
        s.len() as int
    } else if s[from] == c {
        from
    } else {
        find_from(s, c, from + 1)
    }
}

pub proof fn lemma_find_from(s: Seq<char>, c: char, from: int)
    requires
        0 <= from <= s.len(),
    ensures
        from <= find_from(s, c, from) <= s.len(),
        find_from(s, c, from) < s.len() ==> s[find_from(s, c, from)] == c,
        forall|m: int| from <= m < find_from(s, c, from) ==> s[m] != c,
    decreases s.len() - from,
{
    if from < s.len() && s[from] != c {
        lemma_find_from(s, c, from + 1);
    }
}

/// `find_from` is characterized by the three properties above.
proof fn lemma_find_from_exact(s: Seq<char>, c: char, from: int, r: int)
    requires
        0 <= from <= r <= s.len(),
        r < s.len() ==> s[r] == c,
        forall|m: int| from <= m < r ==> s[m] != c,
    ensures
        find_from(s, c, from) == r,
    decreases r - from,
{
    if from < r {
        lemma_find_from_exact(s, c, from + 1, r);
    }
}

/// Searching a suffix is searching the whole sequence, shifted.
proof fn lemma_find_from_skip(s: Seq<char>, c: char, i: int, from: int)
    requires
        0 <= i,
        0 <= from,
        i + from <= s.len(),
    ensures
        find_from(s.skip(i), c, from) == find_from(s, c, i + from) - i,
    decreases s.len() - i - from,
{
    assert(s.skip(i).len() == s.len() - i);
    if from < s.skip(i).len() {
        assert(s.skip(i)[from] == s[i + from]);
        if s[i + from] != c {
            lemma_find_from_skip(s, c, i, from + 1);
        }
    }
}

/// The chunk and name decomposition of a template string: at each step the
/// first `{` with a later `}` opens a placeholder; everything else is a
/// literal chunk (an unterminated `{` stays literal).
pub open spec fn parse_parts(s: Seq<char>) -> (Seq<Seq<char>>, Seq<Seq<char>>)
    decreases s.len(),
    via parse_parts_decreases
{
    let j = find_from(s, '{', 0);
    let k = find_from(s, '}', j + 1);
    if j == s.len() || k == s.len() {
        (seq![s], Seq::empty())
    } else {
        let rest = parse_parts(s.subrange(k + 1, s.len() as int));
        (seq![s.subrange(0, j)] + rest.0, seq![s.subrange(j + 1, k)] + rest.1)
    }
}

#[via_fn]
proof fn parse_parts_decreases(s: Seq<char>) {
    lemma_find_from(s, '{', 0);
    let j = find_from(s, '{', 0);
    if j < s.len() {
        lemma_find_from(s, '}', j + 1);
    }
}

/// The literal chunks of a template string, in order.
pub open spec fn spec_chunks(s: Seq<char>) -> Seq<Seq<char>> {
    parse_parts(s).0
}

/// The placeholder names of a template string, in order.
pub open spec fn spec_names(s: Seq<char>) -> Seq<Seq<char>> {
    parse_parts(s).1
}

/// There is always exactly one more chunk than there are names, and a
/// template without placeholders is a single chunk: the whole string.
pub proof fn lemma_parse_shape(s: Seq<char>)
    ensures
        spec_chunks(s).len() == spec_names(s).len() + 1,
        spec_names(s).len() == 0 ==> spec_chunks(s) == seq![s],
    decreases s.len(),
{
    lemma_find_from(s, '{', 0);
    let j = find_from(s, '{', 0);
    if j < s.len() {
        lemma_find_from(s, '}', j + 1);
        let k = find_from(s, '}', j + 1);
        if k < s.len() {
            lemma_parse_shape(s.subrange(k + 1, s.len() as int));
        }
    }
}

/// A name wrapped back in its braces.
pub open spec fn braced(name: Seq<char>) -> Seq<char> {
    seq!['{'] + name + seq!['}']
}

/// Chunks and names interleaved back into one string, names in braces.
pub open spec fn reassemble(chunks: Seq<Seq<char>>, names: Seq<Seq<char>>) -> Seq<char>
    decreases names.len(),
{
    if names.len() == 0 {
        if chunks.len() == 0 {
            Seq::empty()
        } else {
            chunks[0]
        }
    } else {
        chunks[0] + braced(names[0]) + reassemble(chunks.skip(1), names.skip(1))
    }
}

/// Round trip: putting the placeholders back between the chunks restores the
/// original template text, for every input.
pub proof fn lemma_parse_reassemble(s: Seq<char>)
    ensures
        reassemble(spec_chunks(s), spec_names(s)) == s,
    decreases s.len(),
{
    lemma_find_from(s, '{', 0);
    let j = find_from(s, '{', 0);
    let k = find_from(s, '}', j + 1);
    if j == s.len() || k == s.len() {
        assert(reassemble(seq![s], Seq::empty()) == s);
    } else {
        lemma_find_from(s, '}', j + 1);
        let rest_s = s.subrange(k + 1, s.len() as int);
        lemma_parse_reassemble(rest_s);
        let parts = parse_parts(s);
        let rest = parse_parts(rest_s);
        assert(parts.0.skip(1) =~= rest.0);
        assert(parts.1.skip(1) =~= rest.1);
        assert(reassemble(parts.0, parts.1) == s.subrange(0, j) + braced(s.subrange(j + 1, k))
            + rest_s);
        assert(s.subrange(0, j) + braced(s.subrange(j + 1, k)) + rest_s =~= s);
    }
}

/// The meaning of interpolation: chunks joined with the supplied values in
/// alternation; missing values are empty, surplus values are ignored.
pub open spec fn interp(chunks: Seq<Seq<char>>, values: Seq<Seq<char>>) -> Seq<char>
    decreases chunks.len(),
{
    if chunks.len() == 0 {
        Seq::empty()
    } else if chunks.len() == 1 {
        chunks[0]
    } else {
        chunks[0] + (if values.len() > 0 {
            values[0]
        } else {
            Seq::empty()
        }) + interp(chunks.skip(1), if values.len() > 0 {
            values.skip(1)
        } else {
            values
        })
    }
}

/// Interpolating a template that has no placeholders with no values gives
/// the original text back.
pub proof fn lemma_interp_no_placeholders(s: Seq<char>)
    requires
        spec_names(s).len() == 0,
    ensures
        interp(spec_chunks(s), Seq::empty()) == s,
{
    lemma_parse_shape(s);
}

/// Kept for stricter template grammars; the present grammar accepts
/// every string, so this error is never produced.
#[derive(Clone, Copy, PartialEq, Eq, Debug)]
pub struct TemplateParseError;

/// A parsed command template: the original text, its literal chunks and its
/// placeholder names.
#[derive(Clone, Hash, Eq, PartialEq, Debug, Default)]
pub struct Placeholders {
    pub original: String,
    pub cmd_chunks: Vec<String>,
    pub names: Vec<String>,
}

/// Executable search for a character, proved equal to `find_from`.
fn find_char_from(s: &str, c: char, from: usize) -> (r: usize)
    requires
        from <= s@.len(),
    ensures
        r == find_from(s@, c, from as int),
{
    let len = s.unicode_len();
    let mut i: usize = from;
    while i < len
        invariant
            from <= i <= len,
            len == s@.len(),
            forall|m: int| from <= m < i ==> s@[m] != c,
        decreases len - i,
    {
        if s.get_char(i) == c {
            proof {
                lemma_find_from_exact(s@, c, from as int, i as int);
            }
            return i;
        }
        i += 1;
    }
    proof {
        lemma_find_from_exact(s@, c, from as int, len as int);
    }
    len
}

impl Placeholders {
    /// Parses `my-command {placeholder name} -i {other}` into chunks and
    /// names. The grammar is total: every string parses.
    pub fn parse(cmd: &str) -> (r: Result<Placeholders, TemplateParseError>)
        ensures
            r is Ok,
            r matches Ok(p) ==> {
                &&& p.original@ == cmd@
                &&& p.cmd_chunks.deep_view() == spec_chunks(cmd@)
                &&& p.names.deep_view() == spec_names(cmd@)
            },
    {
        let len = cmd.unicode_len();
        let mut chunks: Vec<String> = Vec::new();
        let mut names: Vec<String> = Vec::new();
        let mut i: usize = 0;
        proof {
            assert(cmd@.skip(0) =~= cmd@);
            assert(chunks.deep_view() + spec_chunks(cmd@) =~= spec_chunks(cmd@));
            assert(names.deep_view() + spec_names(cmd@) =~= spec_names(cmd@));
        }
        loop
            invariant_except_break
                i <= len,
                len == cmd@.len(),
                spec_chunks(cmd@) == chunks.deep_view() + spec_chunks(cmd@.skip(i as int)),
                spec_names(cmd@) == names.deep_view() + spec_names(cmd@.skip(i as int)),
            ensures
                chunks.deep_view() == spec_chunks(cmd@),
                names.deep_view() == spec_names(cmd@),
            decreases len - i,
        {
            let ghost t = cmd@.skip(i as int);
            let ghost pre_chunks = chunks.deep_view();
            let ghost pre_names = names.deep_view();
            let j = find_char_from(cmd, '{', i);
            proof {
                lemma_find_from(cmd@, '{', i as int);
                lemma_find_from_skip(cmd@, '{', i as int, 0);
            }
            let k = if j < len {
                let k0 = find_char_from(cmd, '}', j + 1);
                proof {
                    lemma_find_from(cmd@, '}', j + 1);
                    lemma_find_from_skip(cmd@, '}', i as int, j + 1 - i);
                }
                k0
            } else {
                len
            };
            if j == len || k == len {
                let tail = cmd.substring_char(i, len).to_owned();
                proof {
                    assert(t =~= cmd@.subrange(i as int, len as int));
                    if j == len {
                        assert(find_from(t, '{', 0) == t.len());
                    } else {
                        assert(find_from(t, '{', 0) == j - i);
                        assert(find_from(t, '}', j - i + 1) == t.len());
                    }
                    assert(spec_chunks(t) == seq![t]);
                    assert(spec_names(t) == Seq::<Seq<char>>::empty());
                }
                chunks.push(tail);
                proof {
                    assert(chunks.deep_view() =~= pre_chunks + seq![t]);
                    assert(pre_names + Seq::<Seq<char>>::empty() =~= pre_names);
                }
                break;
            }
            let chunk = cmd.substring_char(i, j).to_owned();
            let name = cmd.substring_char(j + 1, k).to_owned();
            chunks.push(chunk);
            names.push(name);
            proof {
                assert(find_from(t, '{', 0) == j - i);
                assert(find_from(t, '}', j - i + 1) == k - i);
                let rest_s = t.subrange(k - i + 1, t.len() as int);
                assert(t.subrange(0, j - i) =~= cmd@.subrange(i as int, j as int));
                assert(t.subrange(j - i + 1, k - i) =~= cmd@.subrange(j + 1, k as int));
                assert(rest_s =~= cmd@.skip(k + 1));
                assert(spec_chunks(t) == seq![t.subrange(0, j - i)] + spec_chunks(rest_s));
                assert(spec_names(t) == seq![t.subrange(j - i + 1, k - i)] + spec_names(rest_s));
                assert(chunks.deep_view() =~= pre_chunks + seq![t.subrange(0, j - i)]);
                assert(names.deep_view() =~= pre_names + seq![t.subrange(j - i + 1, k - i)]);
                assert(chunks.deep_view() + spec_chunks(cmd@.skip(k + 1)) =~= pre_chunks
                    + spec_chunks(t));
                assert(names.deep_view() + spec_names(cmd@.skip(k + 1)) =~= pre_names
                    + spec_names(t));
            }
            i = k + 1;
        }
        Ok(Placeholders { original: cmd.to_owned(), cmd_chunks: chunks, names })
    }

    /// Joins the chunks and the given values in alternation; missing values
    /// are taken as empty, surplus values are ignored.
    pub fn interpolate(self: &Placeholders, values: Vec<String>) -> (r: String)
        ensures
            r@ == interp(self.cmd_chunks.deep_view(), values.deep_view()),
    {
        let ghost cs = self.cmd_chunks.deep_view();
        let ghost vs = values.deep_view();
        let n = self.cmd_chunks.len();
        let mut r = String::new();
        let mut idx: usize = 0;
        proof {
            assert(cs.skip(0) =~= cs);
            assert(vs.skip(0) =~= vs);
            assert(Seq::<char>::empty() + interp(cs, vs) =~= interp(cs, vs));
        }
        while idx < n
            invariant
                cs == self.cmd_chunks.deep_view(),
                vs == values.deep_view(),
                n == cs.len(),
                n == self.cmd_chunks@.len(),
                vs.len() == values@.len(),
                idx <= n,
                interp(cs, vs) == r@ + interp(
                    cs.skip(idx as int),
                    vs.skip(if idx < vs.len() {
                        idx as int
                    } else {
                        vs.len() as int
                    }),
                ),
            decreases n - idx,
        {
            let ghost pre = r@;
            let ghost v_at = vs.skip(if idx < vs.len() {
                idx as int
            } else {
                vs.len() as int
            });
            r.append(self.cmd_chunks[idx].as_str());
            if idx + 1 < n && idx < values.len() {
                r.append(values[idx].as_str());
            }
            proof {
                assert(cs[idx as int] == self.cmd_chunks@[idx as int]@);
                if idx < values@.len() {
                    assert(vs[idx as int] == values@[idx as int]@);
                }
                assert(cs.skip(idx as int)[0] == cs[idx as int]);
                assert(cs.skip(idx as int).skip(1) =~= cs.skip(idx + 1));
                if idx + 1 < n {
                    if idx < vs.len() {
                        assert(v_at[0] == vs[idx as int]);
                        assert(v_at.skip(1) =~= vs.skip(if idx + 1 < vs.len() {
                            idx + 1
                        } else {
                            vs.len() as int
                        }));
                        assert(r@ =~= pre + cs[idx as int] + vs[idx as int]);
                    } else {
                        assert(v_at.len() == 0);
                        assert(r@ =~= pre + cs[idx as int] + Seq::<char>::empty());
                        assert(v_at =~= vs.skip(vs.len() as int));
                    }
                    assert(interp(cs.skip(idx as int), v_at) == cs.skip(idx as int)[0] + (if v_at.len() > 0 {
                        v_at[0]
                    } else {
                        Seq::<char>::empty()
                    }) + interp(cs.skip(idx as int).skip(1), if v_at.len() > 0 {
                        v_at.skip(1)
                    } else {
                        v_at
                    }));
                    assert(interp(cs.skip(idx as int), v_at) == cs[idx as int] + (if idx
                        < vs.len() {
                        vs[idx as int]
                    } else {
                        Seq::<char>::empty()
                    }) + interp(cs.skip(idx + 1), if v_at.len() > 0 {
                        v_at.skip(1)
                    } else {
                        v_at
                    }));
                } else {
                    assert(cs.skip(idx as int).len() == 1);
                    assert(interp(cs.skip(idx as int), v_at) == cs[idx as int]);
                    assert(cs.skip(idx + 1).len() == 0);
                }
                assert(interp(cs, vs) == r@ + interp(cs.skip(idx + 1), vs.skip(if idx + 1
                    < vs.len() {
                    idx + 1
                } else {
                    vs.len() as int
                })));
            }
            idx += 1;
        }
        proof {
            if n == 0 {
                assert(interp(cs, vs) == r@ + interp(cs.skip(0), vs.skip(if 0 < vs.len() {
                    0
                } else {
                    vs.len() as int
                })));
                assert(cs.skip(0).len() == 0);
                assert(r@ =~= interp(cs, vs));
            } else {
                assert(cs.skip(n as int).len() == 0);
                assert(r@ =~= interp(cs, vs));
            }
        }
        r
    }
}

// ---------------------------------------------------------------------------
// Command records
// ---------------------------------------------------------------------------

/// An immutable command record: a parsed template, an optional description
/// and a list of keywords.
#[derive(Clone, Hash, Eq, PartialEq, Debug)]
pub struct Command {
    pub cmd: Placeholders,
    pub description: Option<String>,
    pub keywords: Vec<String>,
}

/// The mathematical value of a command record: every field by its view.
#[verifier::ext_equal]
pub struct CommandV {
    pub original: Seq<char>,
    pub chunks: Seq<Seq<char>>,
    pub names: Seq<Seq<char>>,
    pub description: Option<Seq<char>>,
    pub keywords: Seq<Seq<char>>,
}

/// Descriptions are equal: both absent, or present with the same text.
pub open spec fn desc_eq(a: Option<String>, b: Option<String>) -> bool {
    match (a, b) {
        (Some(x), Some(y)) => x@ == y@,
        (None, None) => true,
        _ => false,
    }
}

/// The value of a command record.
#[verifier::opaque]
pub open spec fn cv(c: Command) -> CommandV {
    CommandV {
        original: c.cmd.original@,
        chunks: c.cmd.cmd_chunks.deep_view(),
        names: c.cmd.names.deep_view(),
        description: match c.description {
            Some(d) => Some(d@),
            None => None,
        },
        keywords: c.keywords.deep_view(),
    }
}

/// Two command records with the same value.
pub fn command_eq(a: &Command, b: &Command) -> (r: bool)
    ensures
        r == (cv(*a) == cv(*b)),
{
    let r = command_eq_fields(a, b);
    proof {
        reveal(cv);
        if r {
            assert(cv(*a) =~= cv(*b));
        } else {
            if cv(*a) == cv(*b) {
                assert(cv(*a).original == cv(*b).original);
                assert(cv(*a).chunks == cv(*b).chunks);
                assert(cv(*a).names == cv(*b).names);
                assert(cv(*a).description == cv(*b).description);
                assert(cv(*a).keywords == cv(*b).keywords);
                assert(false);
            }
        }
    }
    r
}

/// Field-by-field equality of two command records, on views.
fn command_eq_fields(a: &Command, b: &Command) -> (r: bool)
    ensures
        r == (a.cmd.original@ == b.cmd.original@ && a.cmd.cmd_chunks.deep_view()
            == b.cmd.cmd_chunks.deep_view() && a.cmd.names.deep_view() == b.cmd.names.deep_view()
            && desc_eq(a.description, b.description) && a.keywords.deep_view()
            == b.keywords.deep_view()),
{
    if !str_eq(a.cmd.original.as_str(), b.cmd.original.as_str()) {
        return false;
    }
    if !string_vec_eq(&a.cmd.cmd_chunks, &b.cmd.cmd_chunks) {
        return false;
    }
    if !string_vec_eq(&a.cmd.names, &b.cmd.names) {
        return false;
    }
    match (&a.description, &b.description) {
        (Some(x), Some(y)) => {
            if !str_eq(x.as_str(), y.as_str()) {
                return false;
            }
        },
        (None, None) => {},
        _ => {
            return false;
        },
    }
    if !string_vec_eq(&a.keywords, &b.keywords) {
        return false;
    }
    true
}

impl Command {
    /// The description, or the empty string when there is none.
    pub fn some_description<'a>(self: &'a Command) -> (r: &'a str)
        ensures
            match self.description {
                Some(d) => r@ == d@,
                None => r@ == Seq::<char>::empty(),
            },
    {
        match &self.description {
            Some(d) => d.as_str(),
            None => {
                let empty = "";
                proof {
                    reveal_strlit("");
                    assert(empty@ =~= Seq::<char>::empty());
                }
                empty
            },
        }
    }
}

// ---------------------------------------------------------------------------
// The catalog: a command list and its keyword -> commands inverted index
// ---------------------------------------------------------------------------

/// One index entry: a keyword and the positions of the commands that carry
/// it.
pub struct KeywordEntry {
    pub keyword: String,
    pub cmd_idxs: Vec<usize>,
}

/// The command catalog: the commands in their given order, and the inverted
/// index from keywords to command positions.
pub struct Commands {
    pub commands: Vec<Rc<Command>>,
    pub kwd2cmd: Vec<KeywordEntry>,
}

impl Commands {
    /// The views of the index keys, in index order.
    pub open spec fn key_seq(self) -> Seq<Seq<char>> {
        self.kwd2cmd@.map_values(|e: KeywordEntry| e.keyword@)
    }

    /// The keyword is a key of the index.
    pub open spec fn has_key(self, k: Seq<char>) -> bool {
        exists|e: int| 0 <= e < self.kwd2cmd@.len() && self.kwd2cmd@[e].keyword@ == k
    }

    /// The index maps `k` to the command at position `ci`.
    pub open spec fn index_maps(self, k: Seq<char>, ci: int) -> bool {
        exists|e: int, p: int|
            0 <= e < self.kwd2cmd@.len() && 0 <= p < self.kwd2cmd@[e].cmd_idxs@.len()
                && self.kwd2cmd@[e].keyword@ == k && self.kwd2cmd@[e].cmd_idxs@[p] == ci
    }

    /// Catalog well-formedness: keys are distinct and the index holds
    /// exactly the keyword-to-command pairs justified by the command list.
    pub open spec fn wf(self) -> bool {
        &&& forall|e1: int, e2: int|
            0 <= e1 < e2 < self.kwd2cmd@.len() ==> self.kwd2cmd@[e1].keyword@
                != self.kwd2cmd@[e2].keyword@
        &&& forall|e: int, p: int|
            0 <= e < self.kwd2cmd@.len() && 0 <= p < self.kwd2cmd@[e].cmd_idxs@.len() ==> {
                let ci = #[trigger] self.kwd2cmd@[e].cmd_idxs@[p];
                &&& ci < self.commands@.len()
                &&& self.commands@[ci as int].keywords.deep_view().contains(
                    self.kwd2cmd@[e].keyword@,
                )
            }
        &&& forall|ci: int, ki: int|
            0 <= ci < self.commands@.len() && 0 <= ki < self.commands@[ci].keywords@.len()
                ==> self.index_maps(#[trigger] self.commands@[ci].keywords@[ki]@, ci)
        &&& forall|e: int|
            0 <= e < self.kwd2cmd@.len() ==> #[trigger] self.kwd2cmd@[e].cmd_idxs@.len() > 0
    }

    /// Builds the catalog from shared command records, preserving their
    /// order and indexing every keyword.
    pub fn new_rc(commands: Vec<Rc<Command>>) -> (r: Commands)
        ensures
            r.commands@ == commands@,
            r.wf(),
    {
        let mut kwd2cmd: Vec<KeywordEntry> = Vec::new();
        let mut ci: usize = 0;
        while ci < commands.len()
            invariant
                ci <= commands@.len(),
                forall|e1: int, e2: int|
                    0 <= e1 < e2 < kwd2cmd@.len() ==> kwd2cmd@[e1].keyword@
                        != kwd2cmd@[e2].keyword@,
                forall|e: int, p: int|
                    0 <= e < kwd2cmd@.len() && 0 <= p < kwd2cmd@[e].cmd_idxs@.len() ==> {
                        let cj = #[trigger] kwd2cmd@[e].cmd_idxs@[p];
                        &&& cj < commands@.len()
                        &&& commands@[cj as int].keywords.deep_view().contains(
                            kwd2cmd@[e].keyword@,
                        )
                    },
                forall|cj: int, ki: int|
                    0 <= cj < ci && 0 <= ki < commands@[cj].keywords@.len() ==> entry_maps(
                        kwd2cmd@,
                        #[trigger] commands@[cj].keywords@[ki]@,
                        cj,
                    ),
                forall|e: int|
                    0 <= e < kwd2cmd@.len() ==> #[trigger] kwd2cmd@[e].cmd_idxs@.len() > 0,
            decreases commands@.len() - ci,
        {
            let nk = commands[ci].keywords.len();
            let mut ki: usize = 0;
            while ki < nk
                invariant
                    ci < commands@.len(),
                    nk == commands@[ci as int].keywords@.len(),
                    ki <= nk,
                    forall|e1: int, e2: int|
                        0 <= e1 < e2 < kwd2cmd@.len() ==> kwd2cmd@[e1].keyword@
                            != kwd2cmd@[e2].keyword@,
                    forall|e: int, p: int|
                        0 <= e < kwd2cmd@.len() && 0 <= p < kwd2cmd@[e].cmd_idxs@.len() ==> {
                            let cj = #[trigger] kwd2cmd@[e].cmd_idxs@[p];
                            &&& cj < commands@.len()
                            &&& commands@[cj as int].keywords.deep_view().contains(
                                kwd2cmd@[e].keyword@,
                            )
                        },
                    forall|cj: int, kj: int|
                        0 <= cj < ci && 0 <= kj < commands@[cj].keywords@.len() ==> entry_maps(
                            kwd2cmd@,
                            #[trigger] commands@[cj].keywords@[kj]@,
                            cj,
                        ),
                    forall|kj: int|
                        0 <= kj < ki ==> entry_maps(
                            kwd2cmd@,
                            #[trigger] commands@[ci as int].keywords@[kj]@,
                            ci as int,
                        ),
                    forall|e: int|
                        0 <= e < kwd2cmd@.len() ==> #[trigger] kwd2cmd@[e].cmd_idxs@.len() > 0,
                decreases nk - ki,
            {
                let ghost pre = kwd2cmd@;
                let kw: &String = &commands[ci].keywords[ki];
                let mut e: usize = 0;
                let mut found = false;
                while e < kwd2cmd.len() && !found
                    invariant
                        e <= kwd2cmd@.len(),
                        kwd2cmd@ == pre,
                        !found ==> forall|f: int| 0 <= f < e ==> kwd2cmd@[f].keyword@ != kw@,
                        found ==> e < kwd2cmd@.len() && kwd2cmd@[e as int].keyword@ == kw@,
                    decreases kwd2cmd@.len() - e, (if found { 0int } else { 1int }),
                {
                    if str_eq(kwd2cmd[e].keyword.as_str(), kw.as_str()) {
                        found = true;
                    } else {
                        e += 1;
                    }
                }
                proof {
                    assert(commands@[ci as int].keywords.deep_view()[ki as int] == commands@[ci
                        as int].keywords@[ki as int].deep_view());
                }
                if found {
                    let mut entry = kwd2cmd.remove(e);
                    entry.cmd_idxs.push(ci);
                    kwd2cmd.insert(e, entry);
                    proof {
                        let es = kwd2cmd@;
                        assert(es.len() == pre.len());
                        assert(forall|f: int|
                            0 <= f < pre.len() && f != e ==> es[f] == pre[f]);
                        assert(es[e as int].keyword == pre[e as int].keyword);
                        assert(es[e as int].cmd_idxs@ == pre[e as int].cmd_idxs@.push(ci));
                        // every old mapping survives, and (ci, ki) is now mapped
                        assert forall|k: Seq<char>, cj: int|
                            entry_maps(pre, k, cj) implies entry_maps(es, k, cj) by {
                            let (f, q): (int, int) = choose|f: int, q: int|
                                0 <= f < pre.len() && 0 <= q < pre[f].cmd_idxs@.len()
                                    && pre[f].keyword@ == k && pre[f].cmd_idxs@[q] == cj;
                            assert(0 <= q < es[f].cmd_idxs@.len() && es[f].keyword@ == k
                                && es[f].cmd_idxs@[q] == cj);
                        }
                        let q = pre[e as int].cmd_idxs@.len() as int;
                        assert(es[e as int].cmd_idxs@[q] == ci);
                        assert(entry_maps(es, kw@, ci as int));
                    }
                } else {
                    let mut idxs: Vec<usize> = Vec::new();
                    idxs.push(ci);
                    kwd2cmd.push(KeywordEntry { keyword: kw.clone(), cmd_idxs: idxs });
                    proof {
                        let es = kwd2cmd@;
                        assert(es.len() == pre.len() + 1);
                        assert(forall|f: int| 0 <= f < pre.len() ==> es[f] == pre[f]);
                        assert(es[pre.len() as int].keyword@ == kw@);
                        assert(es[pre.len() as int].cmd_idxs@ =~= seq![ci]);
                        assert forall|k: Seq<char>, cj: int|
                            entry_maps(pre, k, cj) implies entry_maps(es, k, cj) by {
                            let (f, q): (int, int) = choose|f: int, q: int|
                                0 <= f < pre.len() && 0 <= q < pre[f].cmd_idxs@.len()
                                    && pre[f].keyword@ == k && pre[f].cmd_idxs@[q] == cj;
                            assert(0 <= q < es[f].cmd_idxs@.len() && es[f].keyword@ == k
                                && es[f].cmd_idxs@[q] == cj);
                        }
                        assert(es[pre.len() as int].cmd_idxs@[0] == ci);
                        assert(entry_maps(es, kw@, ci as int));
                    }
                }
                ki += 1;
            }
            ci += 1;
        }
        Commands { commands, kwd2cmd }
    }

    /// Builds the catalog from owned command records.
    pub fn new(vec_commands: Vec<Command>) -> (r: Commands)
        ensures
            r.commands@.len() == vec_commands@.len(),
            forall|i: int| 0 <= i < vec_commands@.len() ==> *r.commands@[i] == vec_commands@[i],
            r.wf(),
    {
        let ghost orig = vec_commands@;
        let mut vec_commands = vec_commands;
        let mut commands: Vec<Rc<Command>> = Vec::new();
        while vec_commands.len() > 0
            invariant
                commands@.len() + vec_commands@.len() == orig.len(),
                vec_commands@ == orig.skip(commands@.len() as int),
                forall|i: int| 0 <= i < commands@.len() ==> *commands@[i] == orig[i],
            decreases vec_commands@.len(),
        {
            let c = vec_commands.remove(0);
            proof {
                assert(vec_commands@ =~= orig.skip(commands@.len() as int + 1));
            }
            commands.push(Rc::new(c));
        }
        Commands::new_rc(commands)
    }

    /// The keyword is known to the catalog.
    pub fn has_keyword(&self, kw: &str) -> (r: bool)
        ensures
            r == self.has_key(kw@),
    {
        let mut e: usize = 0;
        while e < self.kwd2cmd.len()
            invariant
                e <= self.kwd2cmd@.len(),
                forall|f: int| 0 <= f < e ==> self.kwd2cmd@[f].keyword@ != kw@,
            decreases self.kwd2cmd@.len() - e,
        {
            if str_eq(self.kwd2cmd[e].keyword.as_str(), kw) {
                return true;
            }
            e += 1;
        }
        false
    }
}

/// Law: a well-formed catalog's index is exact. Every keyword of every
/// command maps to that command, and every pair the index holds is
/// justified: the position is a command of the catalog that carries the
/// entry's keyword.
pub proof fn lemma_index_exact(c: Commands)
    requires
        c.wf(),
    ensures
        forall|ci: int, ki: int|
            0 <= ci < c.commands@.len() && 0 <= ki < c.commands@[ci].keywords@.len()
                ==> c.index_maps(#[trigger] c.commands@[ci].keywords@[ki]@, ci),
        forall|e: int, p: int|
            0 <= e < c.kwd2cmd@.len() && 0 <= p < c.kwd2cmd@[e].cmd_idxs@.len() ==> {
                let ci = #[trigger] c.kwd2cmd@[e].cmd_idxs@[p];
                &&& ci < c.commands@.len()
                &&& c.commands@[ci as int].keywords.deep_view().contains(c.kwd2cmd@[e].keyword@)
            },
{
}

/// `entry_maps(es, k, ci)`: some entry in `es` has key `k` and lists
/// position `ci`.
pub open spec fn entry_maps(es: Seq<KeywordEntry>, k: Seq<char>, ci: int) -> bool {
    exists|e: int, p: int|
        0 <= e < es.len() && 0 <= p < es[e].cmd_idxs@.len() && es[e].keyword@ == k
            && es[e].cmd_idxs@[p] == ci
}

} // verus!
