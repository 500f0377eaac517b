//! Tokenizing a telemetry line: a line that holds a tab character is split on
//! tabs (keeping empty segments); any other line is split on runs of
//! whitespace. The device emits either form depending on firmware and
//! terminal settings, and the two never mix within one line.

use vstd::prelude::*;
use vstd::string::StrSliceExecFns;
use vstd::string::StringExecFns;
use crate::chars::chars_of;
use crate::chars::find_first;
use crate::chars::is_ws;
use crate::chars::lemma_find_first_is;
use crate::chars::ws_char;

verus! {

pub open spec fn tab_pred() -> spec_fn(char) -> bool {
    |c: char| c == '\t'
}

pub open spec fn ws_pred() -> spec_fn(char) -> bool {
    |c: char| is_ws(c)
}

pub open spec fn has_tab(s: Seq<char>) -> bool {
    exists|i: int| 0 <= i < s.len() && s[i] == '\t'
}

/// Split on single tab characters; empty segments are kept.
pub open spec fn split_tab(s: Seq<char>) -> Seq<Seq<char>>
    decreases s.len(),
{
    let i = find_first(s, tab_pred());
    if 0 <= i && i < s.len() {
        seq![s.take(i)] + split_tab(s.skip(i + 1))
    } else {
        seq![s]
    }
}

/// Split on runs of whitespace; every token is non-empty.
pub open spec fn split_ws(s: Seq<char>) -> Seq<Seq<char>>
    decreases s.len(),
{
    if s.len() == 0 {
        Seq::empty()
    } else if is_ws(s[0]) {
        split_ws(s.drop_first())
    } else {
        let i = find_first(s, ws_pred());
        if 1 <= i && i <= s.len() {
            seq![s.take(i)] + split_ws(s.skip(i))
        } else {
            seq![s]
        }
    }
}

/// The token list of one line, per the delimiter probe: tabs if any tab is
/// present, whitespace runs otherwise.
pub open spec fn tokens(s: Seq<char>) -> Seq<Seq<char>> {
    if has_tab(s) {
        split_tab(s)
    } else {
        split_ws(s)
    }
}

/// The character sequences of a sequence of strings.
pub open spec fn views_of(ts: Seq<String>) -> Seq<Seq<char>> {
    ts.map_values(|t: String| t@)
}

pub proof fn lemma_views_push(ts: Seq<String>, t: String)
    ensures
        views_of(ts.push(t)) =~= views_of(ts).push(t@),
{
}

/// Unfolds `split_tab` at the first tab.
pub proof fn lemma_split_tab_step(s: Seq<char>, i: int)
    requires
        0 <= i < s.len(),
        s[i] == '\t',
        forall|j: int| 0 <= j < i ==> #[trigger] s[j] != '\t',
    ensures
        split_tab(s) == seq![s.take(i)] + split_tab(s.skip(i + 1)),
{
    lemma_find_first_is(s, tab_pred(), i);
}

/// `split_tab` of a tab-free sequence is that sequence alone.
pub proof fn lemma_split_tab_whole(s: Seq<char>)
    requires
        forall|j: int| 0 <= j < s.len() ==> #[trigger] s[j] != '\t',
    ensures
        split_tab(s) == seq![s],
{
    lemma_find_first_is(s, tab_pred(), s.len() as int);
}

/// Unfolds `split_ws` at the end of the first token.
pub proof fn lemma_split_ws_token(s: Seq<char>, i: int)
    requires
        s.len() > 0,
        !is_ws(s[0]),
        1 <= i <= s.len(),
        forall|j: int| 0 <= j < i ==> !is_ws(#[trigger] s[j]),
        i < s.len() ==> is_ws(s[i]),
    ensures
        split_ws(s) == seq![s.take(i)] + split_ws(s.skip(i)),
{
    lemma_find_first_is(s, ws_pred(), i);
}

/// The token list rendered as one line with `sep` between consecutive
/// tokens.
pub open spec fn join_with(toks: Seq<Seq<char>>, sep: char) -> Seq<char>
    decreases toks.len(),
{
    if toks.len() == 0 {
        Seq::empty()
    } else if toks.len() == 1 {
        toks[0]
    } else {
        toks[0] + seq![sep] + join_with(toks.drop_first(), sep)
    }
}

/// A token that survives any rendering: non-empty and free of whitespace.
pub open spec fn plain_token(t: Seq<char>) -> bool {
    t.len() > 0 && forall|k: int| 0 <= k < t.len() ==> !is_ws(#[trigger] t[k])
}

pub open spec fn plain_tokens(toks: Seq<Seq<char>>) -> bool {
    forall|i: int| 0 <= i < toks.len() ==> plain_token(#[trigger] toks[i])
}

proof fn lemma_split_tab_join(toks: Seq<Seq<char>>)
    requires
        plain_tokens(toks),
        toks.len() >= 1,
    ensures
        split_tab(join_with(toks, '\t')) == toks,
    decreases toks.len(),
{
    let j = join_with(toks, '\t');
    assert(plain_token(toks[0]));
    let t0 = toks[0].len() as int;
    if toks.len() == 1 {
        assert forall|k: int| 0 <= k < j.len() implies #[trigger] j[k] != '\t' by {
            assert(!is_ws(j[k]));
        }
        lemma_split_tab_whole(j);
        assert(seq![j] =~= toks);
    } else {
        let rest = toks.drop_first();
        let rj = join_with(rest, '\t');
        assert(j == toks[0] + seq!['\t'] + rj);
        assert forall|k: int| 0 <= k < t0 implies #[trigger] j[k] != '\t' by {
            assert(j[k] == toks[0][k]);
            assert(!is_ws(toks[0][k]));
        }
        assert(j[t0] == '\t');
        lemma_split_tab_step(j, t0);
        assert(j.take(t0) =~= toks[0]);
        assert(j.skip(t0 + 1) =~= rj);
        assert forall|i: int| 0 <= i < rest.len() implies plain_token(#[trigger] rest[i]) by {
            assert(rest[i] == toks[i + 1]);
        }
        lemma_split_tab_join(rest);
        assert(seq![toks[0]] + rest =~= toks);
    }
}

proof fn lemma_split_ws_join(toks: Seq<Seq<char>>)
    requires
        plain_tokens(toks),
    ensures
        split_ws(join_with(toks, ' ')) == toks,
    decreases toks.len(),
{
    let j = join_with(toks, ' ');
    if toks.len() == 0 {
        assert(split_ws(j) =~= toks);
    } else if toks.len() == 1 {
        assert(plain_token(toks[0]));
        assert(j == toks[0]);
        lemma_split_ws_token(j, j.len() as int);
        assert(j.take(j.len() as int) =~= j);
        assert(j.skip(j.len() as int) =~= Seq::<char>::empty());
        assert(seq![j] + split_ws(Seq::<char>::empty()) =~= toks);
    } else {
        assert(plain_token(toks[0]));
        let t0 = toks[0].len() as int;
        let rest = toks.drop_first();
        let rj = join_with(rest, ' ');
        assert(j == toks[0] + seq![' '] + rj);
        assert forall|k: int| 0 <= k < t0 implies !is_ws(#[trigger] j[k]) by {
            assert(j[k] == toks[0][k]);
        }
        assert(j[0] == toks[0][0]);
        assert(is_ws(j[t0]));
        lemma_split_ws_token(j, t0);
        assert(j.take(t0) =~= toks[0]);
        let tail = j.skip(t0);
        assert(tail[0] == ' ');
        assert(split_ws(tail) == split_ws(tail.drop_first()));
        assert(tail.drop_first() =~= rj);
        assert forall|i: int| 0 <= i < rest.len() implies plain_token(#[trigger] rest[i]) by {
            assert(rest[i] == toks[i + 1]);
        }
        lemma_split_ws_join(rest);
        assert(seq![toks[0]] + rest =~= toks);
    }
}

proof fn lemma_join_space_no_tab(toks: Seq<Seq<char>>)
    requires
        plain_tokens(toks),
    ensures
        !has_tab(join_with(toks, ' ')),
    decreases toks.len(),
{
    let j = join_with(toks, ' ');
    if toks.len() == 0 {
        assert forall|k: int| 0 <= k < j.len() implies #[trigger] j[k] != '\t' by {}
    } else if toks.len() == 1 {
        assert(plain_token(toks[0]));
        assert forall|k: int| 0 <= k < j.len() implies #[trigger] j[k] != '\t' by {
            assert(!is_ws(j[k]));
        }
    } else {
        let rest = toks.drop_first();
        let rj = join_with(rest, ' ');
        assert(plain_token(toks[0]));
        let t0 = toks[0].len() as int;
        assert forall|i: int| 0 <= i < rest.len() implies plain_token(#[trigger] rest[i]) by {
            assert(rest[i] == toks[i + 1]);
        }
        lemma_join_space_no_tab(rest);
        assert(j == toks[0] + seq![' '] + rj);
        assert forall|k: int| 0 <= k < j.len() implies #[trigger] j[k] != '\t' by {
            if k < t0 {
                assert(j[k] == toks[0][k]);
                assert(!is_ws(toks[0][k]));
            } else if k == t0 {
                assert(j[k] == ' ');
            } else {
                assert(j[k] == rj[k - t0 - 1]);
            }
        }
    }
}

/// One token list, rendered with tabs or with single spaces, tokenizes back
/// to itself either way: the delimiter leaves no trace in the tokens.
pub proof fn lemma_tokens_join(toks: Seq<Seq<char>>)
    requires
        plain_tokens(toks),
    ensures
        tokens(join_with(toks, '\t')) == toks,
        tokens(join_with(toks, ' ')) == toks,
{
    let jt = join_with(toks, '\t');
    let js = join_with(toks, ' ');
    lemma_join_space_no_tab(toks);
    lemma_split_ws_join(toks);
    if toks.len() == 0 {
        assert(jt =~= js);
    } else if toks.len() == 1 {
        assert(jt =~= js);
    } else {
        assert(plain_token(toks[0]));
        let t0 = toks[0].len() as int;
        assert(jt == toks[0] + seq!['\t'] + join_with(toks.drop_first(), '\t'));
        assert(jt[t0] == '\t');
        assert(has_tab(jt));
        lemma_split_tab_join(toks);
    }
}

/// The tokens of a line, each one its own string.
pub fn tokenize(line: &str) -> (toks: Vec<String>)
    ensures
        views_of(toks@) == tokens(line@),
{
    let ghost full = line@;
    let cs = chars_of(line);
    let n = cs.len();

    let mut t: usize = 0;
    let mut tab = false;
    while t < n
        invariant
            cs@ == full,
            n == full.len(),
            t <= n,
            tab == exists|k: int| 0 <= k < t && full[k] == '\t',
        decreases n - t,
    {
        if cs[t] == '\t' {
            tab = true;
        }
        t = t + 1;
    }
    assert(tab == has_tab(full));

    let mut toks: Vec<String> = Vec::new();
    proof {
        assert(full.skip(0) =~= full);
        assert(views_of(toks@) + split_tab(full) =~= split_tab(full));
        assert(views_of(toks@) + split_ws(full) =~= split_ws(full));
    }
    if tab {
        let mut pos: usize = 0;
        let mut done = false;
        while !done
            invariant
                cs@ == full,
                n == full.len(),
                line@ == full,
                pos <= n,
                !done ==> split_tab(full) == views_of(toks@) + split_tab(full.skip(pos as int)),
                done ==> views_of(toks@) == split_tab(full),
            decreases n - pos, (if done { 0int } else { 1int }),
        {
            let mut j = pos;
            while j < n && cs[j] != '\t'
                invariant
                    cs@ == full,
                    n == full.len(),
                    pos <= j <= n,
                    forall|k: int| pos <= k < j ==> #[trigger] full[k] != '\t',
                decreases n - j,
            {
                j = j + 1;
            }
            let tok = String::from_str(line.substring_char(pos, j));
            proof {
                let rem = full.skip(pos as int);
                if j < n {
                    assert forall|k: int| 0 <= k < j - pos implies !tab_pred()(
                        #[trigger] rem[k],
                    ) by {
                        assert(rem[k] == full[k + pos]);
                    }
                    assert(rem[j - pos] == full[j as int]);
                    lemma_find_first_is(rem, tab_pred(), j - pos);
                    assert(rem.take(j - pos) =~= full.subrange(pos as int, j as int));
                    assert(rem.skip(j - pos + 1) =~= full.skip(j + 1));
                    assert(split_tab(rem) == seq![full.subrange(pos as int, j as int)]
                        + split_tab(full.skip(j + 1)));
                } else {
                    assert forall|k: int| 0 <= k < rem.len() implies !tab_pred()(
                        #[trigger] rem[k],
                    ) by {
                        assert(rem[k] == full[k + pos]);
                    }
                    lemma_find_first_is(rem, tab_pred(), rem.len() as int);
                    assert(rem.take(rem.len() as int) =~= rem);
                    assert(split_tab(rem) == seq![rem]);
                    assert(rem =~= full.subrange(pos as int, n as int));
                }
                lemma_views_push(toks@, tok);
            }
            let ghost before = toks@;
            toks.push(tok);
            if j < n {
                proof {
                    assert(views_of(toks@) + split_tab(full.skip(j + 1)) =~= views_of(before)
                        + (seq![tok@] + split_tab(full.skip(j + 1))));
                }
                pos = j + 1;
            } else {
                proof {
                    assert(views_of(toks@) =~= views_of(before) + seq![tok@]);
                }
                done = true;
            }
        }
    } else {
        let mut pos: usize = 0;
        while pos < n
            invariant
                cs@ == full,
                n == full.len(),
                line@ == full,
                pos <= n,
                split_ws(full) == views_of(toks@) + split_ws(full.skip(pos as int)),
            decreases n - pos,
        {
            if ws_char(cs[pos]) {
                proof {
                    let rem = full.skip(pos as int);
                    assert(rem.drop_first() =~= full.skip(pos + 1));
                    assert(split_ws(rem) == split_ws(full.skip(pos + 1)));
                }
                pos = pos + 1;
            } else {
                let mut j = pos + 1;
                while j < n && !ws_char(cs[j])
                    invariant
                        cs@ == full,
                        n == full.len(),
                        pos < j <= n,
                        forall|k: int| pos <= k < j ==> !is_ws(#[trigger] full[k]),
                    decreases n - j,
                {
                    j = j + 1;
                }
                let tok = String::from_str(line.substring_char(pos, j));
                proof {
                    let rem = full.skip(pos as int);
                    assert(rem[0] == full[pos as int]);
                    assert forall|k: int| 0 <= k < j - pos implies !is_ws(#[trigger] rem[k]) by {
                        assert(rem[k] == full[k + pos]);
                    }
                    if j < n {
                        assert(rem[j - pos] == full[j as int]);
                    }
                    lemma_split_ws_token(rem, j - pos);
                    assert(rem.take(j - pos) =~= full.subrange(pos as int, j as int));
                    assert(rem.skip(j - pos) =~= full.skip(j as int));
                    lemma_views_push(toks@, tok);
                }
                let ghost before = toks@;
                toks.push(tok);
                proof {
                    assert(views_of(toks@) + split_ws(full.skip(j as int)) =~= views_of(before)
                        + (seq![tok@] + split_ws(full.skip(j as int))));
                }
                pos = j;
            }
        }
        proof {
            assert(full.skip(n as int) =~= Seq::<char>::empty());
            assert(split_ws(Seq::<char>::empty()) == Seq::<Seq<char>>::empty());
            assert(views_of(toks@) + Seq::<Seq<char>>::empty() =~= views_of(toks@));
        }
    }
    toks
}

} // verus!
