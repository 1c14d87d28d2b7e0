//! The suggestion engine: a pure function from the catalog, the current
//! input and the validated keywords to the matching keywords and commands.

use vstd::prelude::*;
use std::rc::Rc;
use crate::command::{cv, command_eq, Command, CommandV, Commands};
use crate::text::{lex_le, lex_lt, starts_with, str_lt, str_starts_with, string_vec_contains,
    lemma_lex_le_refl, lemma_lex_le_total, lemma_lex_le_trans};

verus! {

/// Every validated keyword appears among the command's keywords.
pub open spec fn cmd_has_all(c: Command, validated: Seq<Seq<char>>) -> bool {
    forall|v: Seq<char>| validated.contains(v) ==> c.keywords.deep_view().contains(v)
}

/// Some keyword of the command completes the input and is not validated yet.
pub open spec fn cmd_matches_input(c: Command, input: Seq<char>, validated: Seq<Seq<char>>) -> bool {
    exists|ki: int|
        0 <= ki < c.keywords.deep_view().len() && starts_with(
            #[trigger] c.keywords.deep_view()[ki],
            input,
        ) && !validated.contains(c.keywords.deep_view()[ki])
}

/// The command belongs in the suggestion for this input state.
#[verifier::opaque]
pub open spec fn cmd_selected(c: Command, input: Seq<char>, validated: Seq<Seq<char>>) -> bool {
    cmd_has_all(c, validated) && (input.len() == 0 || cmd_matches_input(c, input, validated))
}

/// A catalog keyword is suggested when it completes the input and is not
/// validated yet.
pub open spec fn suggested_key(input: Seq<char>, validated: Seq<Seq<char>>) -> spec_fn(
    Seq<char>,
) -> bool {
    |k: Seq<char>| starts_with(k, input) && !validated.contains(k)
}

/// The commands are in canonical order: by template text.
pub open spec fn sorted_by_template(cmds: Seq<Rc<Command>>) -> bool {
    forall|p: int, q: int|
        0 <= p < q < cmds.len() ==> lex_le(
            (#[trigger] cmds[p]).cmd.original@,
            (#[trigger] cmds[q]).cmd.original@,
        )
}

/// No two commands in the list have the same value.
pub open spec fn distinct_commands(cmds: Seq<Rc<Command>>) -> bool {
    forall|p: int, q: int|
        0 <= p < q < cmds.len() ==> cv(*(#[trigger] cmds[p])) != cv(*(#[trigger] cmds[q]))
}

/// The command appears among the first `bound` catalog commands and is
/// selected there.
pub open spec fn appears_selected(
    cat_cmds: Seq<Rc<Command>>,
    bound: int,
    input: Seq<char>,
    validated: Seq<Seq<char>>,
    c: Rc<Command>,
) -> bool {
    exists|cj: int|
        0 <= cj < bound && c == cat_cmds[cj] && cmd_selected(
            *(#[trigger] cat_cmds[cj]),
            input,
            validated,
        )
}

/// Some command in the list has this value.
pub open spec fn value_present(cmds: Seq<Rc<Command>>, v: CommandV) -> bool {
    exists|p: int| 0 <= p < cmds.len() && cv(*(#[trigger] cmds[p])) == v
}

/// The whole meaning of a suggestion for the given catalog and input state:
/// the keyword list is exactly the catalog keys that complete the input and
/// are not validated, in index order (none when the input is empty); the
/// command list is sorted, holds no value twice, and holds exactly the
/// catalog commands selected by the input state.
pub open spec fn suggestion_ok(
    cat: Commands,
    input: Seq<char>,
    validated: Seq<Seq<char>>,
    kws: Seq<Seq<char>>,
    cmds: Seq<Rc<Command>>,
) -> bool {
    &&& kws == if input.len() == 0 {
        Seq::<Seq<char>>::empty()
    } else {
        cat.key_seq().filter(suggested_key(input, validated))
    }
    &&& sorted_by_template(cmds)
    &&& distinct_commands(cmds)
    &&& forall|p: int|
        0 <= p < cmds.len() ==> appears_selected(
            cat.commands@,
            cat.commands@.len() as int,
            input,
            validated,
            #[trigger] cmds[p],
        )
    &&& forall|ci: int|
        0 <= ci < cat.commands@.len() && cmd_selected(
            *(#[trigger] cat.commands@[ci]),
            input,
            validated,
        ) ==> value_present(cmds, cv(*cat.commands@[ci]))
}

/// A suggestion: the matching keywords and the matching commands, the
/// latter shared with the catalog.
#[derive(Debug, Default)]
pub struct Suggestion {
    pub keywords: Vec<String>,
    pub commands: Vec<Rc<Command>>,
}

/// Decides `cmd_selected` for one command record.
fn command_selected(c: &Command, input: &str, validated: &Vec<String>) -> (r: bool)
    ensures
        r == cmd_selected(*c, input@, validated.deep_view()),
{
    let r = command_selected_parts(c, input, validated);
    proof {
        reveal(cmd_selected);
    }
    r
}

/// Decides the two parts of `cmd_selected` directly.
fn command_selected_parts(c: &Command, input: &str, validated: &Vec<String>) -> (r: bool)
    ensures
        r == (cmd_has_all(*c, validated.deep_view()) && (input@.len() == 0 || cmd_matches_input(
            *c,
            input@,
            validated.deep_view(),
        ))),
{
    let ghost vkw = validated.deep_view();
    let mut vi: usize = 0;
    while vi < validated.len()
        invariant
            vkw == validated.deep_view(),
            vi <= validated@.len(),
            forall|j: int| 0 <= j < vi ==> c.keywords.deep_view().contains(#[trigger] vkw[j]),
        decreases validated@.len() - vi,
    {
        if !string_vec_contains(&c.keywords, validated[vi].as_str()) {
            proof {
                assert(vkw[vi as int] == validated@[vi as int]@);
                assert(vkw.contains(vkw[vi as int]));
                assert(!cmd_has_all(*c, vkw));
            }
            return false;
        }
        proof {
            assert(vkw[vi as int] == validated@[vi as int]@);
        }
        vi += 1;
    }
    proof {
        assert forall|v: Seq<char>| vkw.contains(v) implies c.keywords.deep_view().contains(
            v,
        ) by {
            let j = choose|j: int| 0 <= j < vkw.len() && vkw[j] == v;
            assert(c.keywords.deep_view().contains(vkw[j]));
        }
        assert(cmd_has_all(*c, vkw));
    }
    if input.is_empty() {
        return true;
    }
    let nk = c.keywords.len();
    let mut ki: usize = 0;
    while ki < nk
        invariant
            vkw == validated.deep_view(),
            cmd_has_all(*c, vkw),
            input@.len() > 0,
            nk == c.keywords@.len(),
            ki <= nk,
            forall|j: int|
                0 <= j < ki ==> !(starts_with(#[trigger] c.keywords.deep_view()[j], input@)
                    && !vkw.contains(c.keywords.deep_view()[j])),
        decreases nk - ki,
    {
        proof {
            assert(c.keywords.deep_view()[ki as int] == c.keywords@[ki as int]@);
        }
        if str_starts_with(c.keywords[ki].as_str(), input) && !string_vec_contains(
            validated,
            c.keywords[ki].as_str(),
        ) {
            proof {
                assert(c.keywords.deep_view().len() == c.keywords@.len());
                assert(cmd_matches_input(*c, input@, vkw));
            }
            return true;
        }
        ki += 1;
    }
    proof {
        assert(c.keywords.deep_view().len() == c.keywords@.len());
        assert(!cmd_matches_input(*c, input@, vkw));
    }
    false
}

/// The list already holds a command of this value.
fn contains_command(cmds: &Vec<Rc<Command>>, c: &Rc<Command>) -> (r: bool)
    ensures
        r == exists|p: int| 0 <= p < cmds@.len() && cv(*cmds@[p]) == cv(**c),
{
    let mut p: usize = 0;
    while p < cmds.len()
        invariant
            p <= cmds@.len(),
            forall|q: int| 0 <= q < p ==> cv(*cmds@[q]) != cv(**c),
        decreases cmds@.len() - p,
    {
        if command_eq(&cmds[p], c) {
            return true;
        }
        p += 1;
    }
    false
}

/// Inserts a command at its place in the canonical order.
fn insert_sorted(cmds: &mut Vec<Rc<Command>>, c: Rc<Command>)
    requires
        sorted_by_template(old(cmds)@),
    ensures
        exists|j: int| 0 <= j <= old(cmds)@.len() && final(cmds)@ == old(cmds)@.insert(j, c),
        sorted_by_template(final(cmds)@),
{
    let mut j: usize = 0;
    while j < cmds.len() && str_lt(cmds[j].cmd.original.as_str(), c.cmd.original.as_str())
        invariant
            cmds@ == old(cmds)@,
            j <= cmds@.len(),
            sorted_by_template(cmds@),
            forall|p: int| 0 <= p < j ==> lex_lt((#[trigger] cmds@[p]).cmd.original@, c.cmd.original@),
        decreases cmds@.len() - j,
    {
        j += 1;
    }
    proof {
        if (j as int) < cmds@.len() {
            let a = cmds@[j as int].cmd.original@;
            let b = c.cmd.original@;
            assert(!lex_lt(a, b));
            if a == b {
                lemma_lex_le_refl(b);
                assert(lex_le(b, a));
            } else {
                lemma_lex_le_total(a, b);
                assert(lex_le(b, a));
            }
        }
    }
    let ghost pre = cmds@;
    let ghost jj = j as int;
    cmds.insert(j, c);
    proof {
        assert forall|p: int, q: int| 0 <= p < q < cmds@.len() implies lex_le(
            (#[trigger] cmds@[p]).cmd.original@,
            (#[trigger] cmds@[q]).cmd.original@,
        ) by {
            let b = c.cmd.original@;
            if p < jj && q == jj {
                assert(cmds@[p] == pre[p]);
            } else if p == jj && q > jj {
                assert(cmds@[q] == pre[q - 1]);
                assert(lex_le(b, pre[jj].cmd.original@));
                if q - 1 > jj {
                    assert(lex_le(pre[jj].cmd.original@, pre[q - 1].cmd.original@));
                    lemma_lex_le_trans(b, pre[jj].cmd.original@, pre[q - 1].cmd.original@);
                }
            } else if p < jj && q > jj {
                assert(cmds@[p] == pre[p]);
                assert(cmds@[q] == pre[q - 1]);
                if q - 1 > p {
                    assert(lex_le(pre[p].cmd.original@, pre[q - 1].cmd.original@));
                } else {
                    lemma_lex_le_refl(pre[p].cmd.original@);
                }
            } else if p > jj {
                assert(cmds@[p] == pre[p - 1]);
                assert(cmds@[q] == pre[q - 1]);
            } else if q < jj {
                assert(cmds@[p] == pre[p]);
                assert(cmds@[q] == pre[q]);
            }
        }
    }
}

/// The command list `cmds` is exactly the selected commands among the
/// first `bound` catalog commands, each value once.
pub open spec fn cmds_collected(
    cat_cmds: Seq<Rc<Command>>,
    bound: int,
    input: Seq<char>,
    validated: Seq<Seq<char>>,
    cmds: Seq<Rc<Command>>,
) -> bool {
    &&& forall|p: int|
        0 <= p < cmds.len() ==> appears_selected(
            cat_cmds,
            bound,
            input,
            validated,
            #[trigger] cmds[p],
        )
    &&& forall|cj: int|
        0 <= cj < bound && cmd_selected(*(#[trigger] cat_cmds[cj]), input, validated)
            ==> value_present(cmds, cv(*cat_cmds[cj]))
}

/// One collection step where the command is new: it was inserted.
proof fn lemma_collect_insert(
    cat_cmds: Seq<Rc<Command>>,
    bound: int,
    input: Seq<char>,
    validated: Seq<Seq<char>>,
    pre: Seq<Rc<Command>>,
    post: Seq<Rc<Command>>,
    jj: int,
)
    requires
        0 <= bound < cat_cmds.len(),
        0 <= jj <= pre.len(),
        post == pre.insert(jj, cat_cmds[bound]),
        cmd_selected(*cat_cmds[bound], input, validated),
        cmds_collected(cat_cmds, bound, input, validated, pre),
        distinct_commands(pre),
        forall|p: int| 0 <= p < pre.len() ==> cv(*(#[trigger] pre[p])) != cv(*cat_cmds[bound]),
    ensures
        cmds_collected(cat_cmds, bound + 1, input, validated, post),
        distinct_commands(post),
{
    let c = cat_cmds[bound];
    assert(post[jj] == c);
    assert(forall|p: int| 0 <= p < jj ==> post[p] == pre[p]);
    assert(forall|p: int| jj < p < post.len() ==> post[p] == pre[p - 1]);
    assert forall|p: int, q: int| 0 <= p < q < post.len() implies cv(*(#[trigger] post[p]))
        != cv(*(#[trigger] post[q])) by {
        if p == jj {
            assert(cv(*post[q]) != cv(*c));
        } else if q == jj {
            assert(cv(*post[p]) != cv(*c));
        }
    }
    assert forall|p: int| 0 <= p < post.len() implies appears_selected(
        cat_cmds,
        bound + 1,
        input,
        validated,
        #[trigger] post[p],
    ) by {
        if p == jj {
            assert(post[p] == cat_cmds[bound] && cmd_selected(*cat_cmds[bound], input, validated));
        } else {
            let pp = if p < jj { p } else { p - 1 };
            assert(appears_selected(cat_cmds, bound, input, validated, pre[pp]));
            let cj = choose|cj: int|
                0 <= cj < bound && pre[pp] == cat_cmds[cj] && cmd_selected(
                    *(#[trigger] cat_cmds[cj]),
                    input,
                    validated,
                );
            assert(post[p] == cat_cmds[cj] && cmd_selected(*cat_cmds[cj], input, validated));
        }
    }
    assert forall|cj: int|
        0 <= cj < bound + 1 && cmd_selected(*(#[trigger] cat_cmds[cj]), input, validated) implies
        value_present(post, cv(*cat_cmds[cj])) by {
        if cj == bound {
            assert(cv(*post[jj]) == cv(*cat_cmds[cj]));
        } else {
            assert(value_present(pre, cv(*cat_cmds[cj])));
            let p = choose|p: int|
                0 <= p < pre.len() && cv(*(#[trigger] pre[p])) == cv(*cat_cmds[cj]);
            if p < jj {
                assert(cv(*post[p]) == cv(*cat_cmds[cj]));
            } else {
                assert(cv(*post[p + 1]) == cv(*cat_cmds[cj]));
            }
        }
    }
}

/// One collection step where the command's value is already present, or the
/// command is not selected: the list stays as it is.
proof fn lemma_collect_keep(
    cat_cmds: Seq<Rc<Command>>,
    bound: int,
    input: Seq<char>,
    validated: Seq<Seq<char>>,
    cmds: Seq<Rc<Command>>,
)
    requires
        0 <= bound < cat_cmds.len(),
        cmds_collected(cat_cmds, bound, input, validated, cmds),
        cmd_selected(*cat_cmds[bound], input, validated) ==> value_present(
            cmds,
            cv(*cat_cmds[bound]),
        ),
    ensures
        cmds_collected(cat_cmds, bound + 1, input, validated, cmds),
{
    assert forall|p: int| 0 <= p < cmds.len() implies appears_selected(
        cat_cmds,
        bound + 1,
        input,
        validated,
        #[trigger] cmds[p],
    ) by {
        assert(appears_selected(cat_cmds, bound, input, validated, cmds[p]));
        let cj = choose|cj: int|
            0 <= cj < bound && cmds[p] == cat_cmds[cj] && cmd_selected(
                *(#[trigger] cat_cmds[cj]),
                input,
                validated,
            );
        assert(0 <= cj < bound + 1 && cmds[p] == cat_cmds[cj] && cmd_selected(
            *cat_cmds[cj],
            input,
            validated,
        ));
    }
    assert forall|cj: int|
        0 <= cj < bound + 1 && cmd_selected(*(#[trigger] cat_cmds[cj]), input, validated) implies
        value_present(cmds, cv(*cat_cmds[cj])) by {
        if cj == bound {
            assert(value_present(cmds, cv(*cat_cmds[bound])));
        } else {
            assert(value_present(cmds, cv(*cat_cmds[cj])));
        }
    }
}

impl Suggestion {
    /// The suggestion for the given catalog, free-text input and validated
    /// keywords. Pure: depends on its arguments alone.
    pub fn from_input(commands: &Commands, input: &str, validated_keywords: &Vec<String>) -> (r:
        Suggestion)
        ensures
            suggestion_ok(
                *commands,
                input@,
                validated_keywords.deep_view(),
                r.keywords.deep_view(),
                r.commands@,
            ),
    {
        let ghost vkw = validated_keywords.deep_view();
        let ghost pred = suggested_key(input@, vkw);
        let mut kws: Vec<String> = Vec::new();
        if !input.is_empty() {
            let ne = commands.kwd2cmd.len();
            let mut e: usize = 0;
            while e < ne
                invariant
                    vkw == validated_keywords.deep_view(),
                    pred == suggested_key(input@, vkw),
                    input@.len() > 0,
                    ne == commands.kwd2cmd@.len(),
                    e <= ne,
                    kws.deep_view() == commands.key_seq().take(e as int).filter(pred),
                decreases ne - e,
            {
                let ghost keys = commands.key_seq();
                let ghost pre = kws.deep_view();
                let kw: &String = &commands.kwd2cmd[e].keyword;
                proof {
                    assert(keys[e as int] == commands.kwd2cmd@[e as int].keyword@);
                    assert(keys.take(e + 1).drop_last() =~= keys.take(e as int));
                    assert(keys.take(e + 1).last() == keys[e as int]);
                }
                if str_starts_with(kw.as_str(), input) && !string_vec_contains(
                    validated_keywords,
                    kw.as_str(),
                ) {
                    kws.push(kw.clone());
                    proof {
                        assert(pred(keys[e as int]));
                        assert(kws.deep_view() =~= pre.push(kw@));
                        reveal(Seq::filter);
                        assert(keys.take(e + 1).filter(pred) == keys.take(e as int).filter(
                            pred,
                        ).push(keys[e as int]));
                    }
                } else {
                    proof {
                        assert(!pred(keys[e as int]));
                        reveal(Seq::filter);
                        assert(keys.take(e + 1).filter(pred) == keys.take(e as int).filter(pred));
                    }
                }
                e += 1;
            }
            proof {
                assert(commands.key_seq().take(ne as int) =~= commands.key_seq());
            }
        }
        let n = commands.commands.len();
        let mut cmds: Vec<Rc<Command>> = Vec::new();
        let mut ci: usize = 0;
        while ci < n
            invariant
                vkw == validated_keywords.deep_view(),
                n == commands.commands@.len(),
                ci <= n,
                sorted_by_template(cmds@),
                distinct_commands(cmds@),
                cmds_collected(commands.commands@, ci as int, input@, vkw, cmds@),
            decreases n - ci,
        {
            let c: &Rc<Command> = &commands.commands[ci];
            if command_selected(c, input, validated_keywords) {
                if !contains_command(&cmds, c) {
                    let ghost pre = cmds@;
                    insert_sorted(&mut cmds, c.clone());
                    proof {
                        let jj = choose|jj: int|
                            0 <= jj <= pre.len() && cmds@ == pre.insert(jj, *c);
                        lemma_collect_insert(
                            commands.commands@,
                            ci as int,
                            input@,
                            vkw,
                            pre,
                            cmds@,
                            jj,
                        );
                    }
                } else {
                    proof {
                        lemma_collect_keep(commands.commands@, ci as int, input@, vkw, cmds@);
                    }
                }
            } else {
                proof {
                    lemma_collect_keep(commands.commands@, ci as int, input@, vkw, cmds@);
                }
            }
            ci += 1;
        }
        proof {
            if input@.len() == 0 {
                assert(kws.deep_view() =~= Seq::<Seq<char>>::empty());
            }
            assert(commands.commands@.len() as int == n as int);
        }
        Suggestion { keywords: kws, commands: cmds }
    }
}

/// Law: every suggested command is one of the catalog's commands, and it
/// carries every validated keyword.
pub proof fn lemma_suggested_commands_narrowed(
    cat: Commands,
    input: Seq<char>,
    validated: Seq<Seq<char>>,
    kws: Seq<Seq<char>>,
    cmds: Seq<Rc<Command>>,
    p: int,
)
    requires
        suggestion_ok(cat, input, validated, kws, cmds),
        0 <= p < cmds.len(),
    ensures
        exists|ci: int| 0 <= ci < cat.commands@.len() && cmds[p] == (#[trigger] cat.commands@[ci]),
        cmd_has_all(*cmds[p], validated),
{
    assert(appears_selected(cat.commands@, cat.commands@.len() as int, input, validated, cmds[p]));
    let cj = choose|cj: int|
        0 <= cj < cat.commands@.len() && cmds[p] == cat.commands@[cj] && cmd_selected(
            *(#[trigger] cat.commands@[cj]),
            input,
            validated,
        );
    reveal(cmd_selected);
    assert(cmds[p] == cat.commands@[cj]);
}

/// Law: a keyword that is already validated is never suggested again,
/// whatever the input.
pub proof fn lemma_validated_keyword_not_suggested(
    cat: Commands,
    input: Seq<char>,
    validated: Seq<Seq<char>>,
    kws: Seq<Seq<char>>,
    cmds: Seq<Rc<Command>>,
    k: Seq<char>,
)
    requires
        suggestion_ok(cat, input, validated, kws, cmds),
        validated.contains(k),
    ensures
        !kws.contains(k),
{
    if input.len() == 0 {
        assert(kws.len() == 0);
    } else {
        let keys = cat.key_seq();
        let pred = suggested_key(input, validated);
        if kws.contains(k) {
            let i = choose|i: int| 0 <= i < kws.len() && kws[i] == k;
            keys.lemma_filter_pred(pred, i);
            assert(pred(k));
            assert(false);
        }
    }
}

/// Law: with empty input and no validated keywords the suggestion suggests
/// no keyword and lists the whole catalog, in canonical order, when the
/// catalog holds no command twice.
pub proof fn lemma_suggest_everything(
    cat: Commands,
    kws: Seq<Seq<char>>,
    cmds: Seq<Rc<Command>>,
)
    requires
        suggestion_ok(cat, Seq::empty(), Seq::empty(), kws, cmds),
        distinct_commands(cat.commands@),
    ensures
        kws == Seq::<Seq<char>>::empty(),
        sorted_by_template(cmds),
        distinct_commands(cmds),
        cmds.len() == cat.commands@.len(),
        forall|ci: int|
            0 <= ci < cat.commands@.len() ==> value_present(cmds, cv(*(#[trigger] cat.commands@[ci]))),
        forall|p: int| 0 <= p < cmds.len() ==> cat.commands@.contains(#[trigger] cmds[p]),
{
    let n = cat.commands@.len() as int;
    let validated = Seq::<Seq<char>>::empty();
    let input = Seq::<char>::empty();
    assert forall|ci: int|
        0 <= ci < n implies cmd_selected(*(#[trigger] cat.commands@[ci]), input, validated) by {
        reveal(cmd_selected);
    }
    assert forall|p: int| 0 <= p < cmds.len() implies cat.commands@.contains(
        #[trigger] cmds[p],
    ) by {
        assert(appears_selected(cat.commands@, n, input, validated, cmds[p]));
        let cj = choose|cj: int|
            0 <= cj < n && cmds[p] == cat.commands@[cj] && cmd_selected(
                *(#[trigger] cat.commands@[cj]),
                input,
                validated,
            );
        assert(cat.commands@[cj] == cmds[p]);
    }
    // both lists hold the same command values, each exactly once
    let f = |c: Rc<Command>| cv(*c);
    let s1 = cmds.map_values(f);
    let s2 = cat.commands@.map_values(f);
    assert(s1.len() == cmds.len());
    assert(s2.len() == cat.commands@.len());
    assert forall|i: int, j: int| 0 <= i < j < s1.len() implies s1[i] != s1[j] by {
        assert(cv(*cmds[i]) != cv(*cmds[j]));
    }
    assert(s1.no_duplicates());
    assert forall|i: int, j: int| 0 <= i < j < s2.len() implies s2[i] != s2[j] by {
        assert(cv(*cat.commands@[i]) != cv(*cat.commands@[j]));
    }
    assert(s2.no_duplicates());
    assert forall|v: CommandV| s1.contains(v) implies s2.contains(v) by {
        let p = choose|p: int| 0 <= p < s1.len() && s1[p] == v;
        assert(appears_selected(cat.commands@, n, input, validated, cmds[p]));
        let cj = choose|cj: int|
            0 <= cj < n && cmds[p] == cat.commands@[cj] && cmd_selected(
                *(#[trigger] cat.commands@[cj]),
                input,
                validated,
            );
        assert(s2[cj] == v);
    }
    assert forall|v: CommandV| s2.contains(v) implies s1.contains(v) by {
        let ci = choose|ci: int| 0 <= ci < s2.len() && s2[ci] == v;
        assert(value_present(cmds, cv(*cat.commands@[ci])));
        let p = choose|p: int| 0 <= p < cmds.len() && cv(*(#[trigger] cmds[p])) == cv(*cat.commands@[ci]);
        assert(s1[p] == v);
    }
    assert(s1.to_set() =~= s2.to_set());
    s1.unique_seq_to_set();
    s2.unique_seq_to_set();
    assert(s1.len() == s1.to_set().len());
    assert(s2.len() == s2.to_set().len());
}

} // verus!
