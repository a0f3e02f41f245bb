//! How the lines of gamemasters are read.

use vstd::prelude::*;

use super::super::gm::command_line;
use super::super::gm::not_quote;
use super::super::gm::not_white;
use super::super::gm::run;
use super::super::gm::trimmed_end;
use super::super::gm::trimmed_start;
use super::super::gm::unslashed;
use super::super::gm::words_of;
use crate::text::is_white;

verus! {

proof fn lemma_run_is(s: Seq<char>, f: spec_fn(char) -> bool, n: int)
    requires
        0 <= n <= s.len(),
        forall|i: int| 0 <= i < n ==> f(#[trigger] s[i]),
        n < s.len() ==> !f(s[n]),
    ensures
        run(s, f) == n,
    decreases s.len(),
{
    if n > 0 {
        let t = s.drop_first();
        assert(f(s[0]));
        assert forall|i: int| 0 <= i < n - 1 implies f(#[trigger] t[i]) by {
            assert(t[i] == s[i + 1]);
        }
        lemma_run_is(t, f, n - 1);
    }
}

/// A line begins with a slash, which does not belong to its first word.
pub proof fn law_slashes_are_dropped(line: Seq<char>)
    requires
        line.len() > 0,
        line[0] != '/',
        !is_white(line[0]),
        !is_white(line.last()),
    ensures
        command_line(seq!['/'] + line) == line,
        command_line(line) == line,
{
    let s = seq!['/'] + line;
    assert(s.drop_first() =~= line);
    assert(unslashed(line) == line);
    assert(unslashed(s) == unslashed(s.drop_first()));
    assert(trimmed_start(line) == line);
    assert(trimmed_end(line) == line);
}

/// White space between words does not matter.
pub proof fn law_blanks_are_skipped(c: char, rest: Seq<char>)
    requires
        is_white(c),
    ensures
        words_of(seq![c] + rest) == words_of(rest),
        words_of(Seq::empty()) == Seq::<Seq<char>>::empty(),
{
    assert((seq![c] + rest).drop_first() =~= rest);
}

/// A word ends where white space begins, or the line ends.
pub proof fn law_words_end_at_blanks(word: Seq<char>, rest: Seq<char>)
    requires
        word.len() > 0,
        word[0] != '"',
        forall|i: int| 0 <= i < word.len() ==> !is_white(#[trigger] word[i]),
        rest.len() > 0 ==> is_white(rest[0]),
    ensures
        words_of(word + rest) == seq![word] + words_of(rest),
{
    let s = word + rest;
    let n = word.len() as int;
    assert(s[0] == word[0]);
    assert(!is_white(word[0]));
    assert forall|i: int| 0 <= i < n implies not_white()(#[trigger] s[i]) by {
        assert(s[i] == word[i]);
    }
    if n < s.len() {
        assert(s[n] == rest[0]);
    }
    lemma_run_is(s, not_white(), n);
    assert(s.take(n) =~= word);
    assert(s.skip(n) =~= rest);
}

/// What stands between quotes is one word, blanks and all.
pub proof fn law_quotes_keep_words_together(word: Seq<char>, rest: Seq<char>)
    requires
        forall|i: int| 0 <= i < word.len() ==> #[trigger] word[i] != '"',
    ensures
        words_of(seq!['"'] + word + seq!['"'] + rest) == seq![word] + words_of(rest),
{
    let s = seq!['"'] + word + seq!['"'] + rest;
    let t = s.drop_first();
    let n = word.len() as int;
    assert(s[0] == '"');
    assert(!is_white('"'));
    assert forall|i: int| 0 <= i < n implies not_quote()(#[trigger] t[i]) by {
        assert(t[i] == word[i]);
    }
    assert(t[n] == '"');
    lemma_run_is(t, not_quote(), n);
    assert(t.take(n) =~= word);
    assert(t.skip(n + 1) =~= rest);
}

} // verus!
