//! The engine's laws, proved once and for all over the transition
//! function: idempotent ending registration, history/back symmetry,
//! global-command precedence, redraw monotonicity, and the bounds check
//! on numeric choices.

use vstd::prelude::*;
use crate::engine::{step, help_text, number_hint_text, range_hint_text};
use crate::game::SessionModel;
use crate::story::StoryModel;
use crate::text::{
    all_digits, dec_str, dec_val, digit_char, digit_val, is_digit_char, lex_lt,
    lemma_lex_lt_irrefl, lemma_sorted_insert_props, parsed_dec, sorted_insert,
    strict_sorted,
};

verus! {

/// The session a sequence of commands leads to, one step per command,
/// in order.
pub open spec fn run(st: StoryModel, s: SessionModel, cmds: Seq<Seq<char>>) -> SessionModel
    decreases cmds.len(),
{
    if cmds.len() == 0 {
        s
    } else {
        run(st, step(st, s, cmds[0]), cmds.drop_first())
    }
}

/// Every step keeps the session well-formed: the unlocked ending codes
/// stay strictly sorted.
pub proof fn lemma_step_wf(st: StoryModel, s: SessionModel, cmd: Seq<char>)
    requires
        s.wf(),
    ensures
        step(st, s, cmd).wf(),
{
    if cmd.len() == 0 {
    } else if cmd == "help"@ || cmd == "quit"@ || cmd == "exit"@ || cmd == "history"@
        || cmd == "endings"@ || cmd == "back"@ {
    } else if !st.has_node(s.current) {
    } else if st.node_of(s.current).ending is Some {
    } else {
        let node = st.node_of(s.current);
        match parsed_dec(cmd) {
            Some(n) => {
                if 1 <= n && n <= node.choices.len() {
                    let next = node.choices[n - 1].next;
                    if st.has_node(next) {
                        match st.node_of(next).ending {
                            Some(e) => {
                                lemma_sorted_insert_props(s.endings, e.code);
                            },
                            None => {},
                        }
                    }
                }
            },
            None => {},
        }
    }
}

/// A step never removes an unlocked ending: whatever codes were present
/// stay present.
pub proof fn lemma_step_endings_monotone(st: StoryModel, s: SessionModel, cmd: Seq<char>)
    requires
        s.wf(),
    ensures
        forall|c: Seq<char>|
            s.endings.contains(c) ==> step(st, s, cmd).endings.contains(c),
{
    if cmd.len() == 0 {
    } else if cmd == "help"@ || cmd == "quit"@ || cmd == "exit"@ || cmd == "history"@
        || cmd == "endings"@ || cmd == "back"@ {
    } else if !st.has_node(s.current) {
    } else if st.node_of(s.current).ending is Some {
    } else {
        let node = st.node_of(s.current);
        match parsed_dec(cmd) {
            Some(n) => {
                if 1 <= n && n <= node.choices.len() {
                    let next = node.choices[n - 1].next;
                    if st.has_node(next) {
                        match st.node_of(next).ending {
                            Some(e) => {
                                lemma_sorted_insert_props(s.endings, e.code);
                            },
                            None => {},
                        }
                    }
                }
            },
            None => {},
        }
    }
}

/// A strictly sorted list holds no element twice.
pub proof fn lemma_strict_sorted_unique(v: Seq<Seq<char>>)
    requires
        strict_sorted(v),
    ensures
        forall|i: int, j: int| 0 <= i < j < v.len() ==> v[i] != v[j],
{
    assert forall|i: int, j: int| 0 <= i < j < v.len() implies v[i] != v[j] by {
        assert(lex_lt(v[i], v[j]));
        if v[i] == v[j] {
            lemma_lex_lt_irrefl(v[i]);
        }
    }
}

/// However a playthrough runs — any sequence of inputs, reaching the
/// same ending any number of times, by any path — each ending code
/// stands in the unlocked list at most once, and no code once unlocked
/// is ever lost.
pub proof fn lemma_ending_registration_idempotent(
    st: StoryModel,
    s: SessionModel,
    cmds: Seq<Seq<char>>,
)
    requires
        s.wf(),
    ensures
        run(st, s, cmds).wf(),
        forall|i: int, j: int|
            0 <= i < j < run(st, s, cmds).endings.len() ==> run(st, s, cmds).endings[i]
                != run(st, s, cmds).endings[j],
        forall|c: Seq<char>|
            s.endings.contains(c) ==> run(st, s, cmds).endings.contains(c),
    decreases cmds.len(),
{
    if cmds.len() == 0 {
        lemma_strict_sorted_unique(s.endings);
    } else {
        lemma_step_wf(st, s, cmds[0]);
        lemma_step_endings_monotone(st, s, cmds[0]);
        lemma_ending_registration_idempotent(st, step(st, s, cmds[0]), cmds.drop_first());
    }
}

/// Recording a code that is already recorded changes nothing: the
/// insertion is idempotent.
pub proof fn lemma_insert_code_idempotent(v: Seq<Seq<char>>, x: Seq<char>)
    requires
        strict_sorted(v),
    ensures
        sorted_insert(sorted_insert(v, x), x) == sorted_insert(v, x),
{
    lemma_sorted_insert_props(v, x);
    lemma_sorted_insert_props(sorted_insert(v, x), x);
}

/// The command words and the menu digits are pairwise distinct and
/// non-empty.
proof fn lemma_command_literals()
    ensures
        ("help"@).len() == 4,
        ("quit"@).len() == 4,
        ("exit"@).len() == 4,
        ("history"@).len() == 7,
        ("endings"@).len() == 7,
        ("back"@).len() == 4,
        ("1"@).len() == 1,
        ("2"@).len() == 1,
        ("3"@).len() == 1,
        "help"@ != "quit"@ && "help"@ != "exit"@ && "help"@ != "history"@ && "help"@
            != "endings"@ && "help"@ != "back"@,
        "quit"@ != "exit"@ && "quit"@ != "history"@ && "quit"@ != "endings"@ && "quit"@
            != "back"@,
        "exit"@ != "history"@ && "exit"@ != "endings"@ && "exit"@ != "back"@,
        "history"@ != "endings"@ && "history"@ != "back"@,
        "endings"@ != "back"@,
        "1"@ != "2"@ && "1"@ != "3"@ && "2"@ != "3"@,
        "1"@ != "help"@ && "1"@ != "quit"@ && "1"@ != "exit"@ && "1"@ != "history"@ && "1"@
            != "endings"@ && "1"@ != "back"@,
        "2"@ != "help"@ && "2"@ != "quit"@ && "2"@ != "exit"@ && "2"@ != "history"@ && "2"@
            != "endings"@ && "2"@ != "back"@,
        "3"@ != "help"@ && "3"@ != "quit"@ && "3"@ != "exit"@ && "3"@ != "history"@ && "3"@
            != "endings"@ && "3"@ != "back"@,
{
    reveal_strlit("help");
    reveal_strlit("quit");
    reveal_strlit("exit");
    reveal_strlit("history");
    reveal_strlit("endings");
    reveal_strlit("back");
    reveal_strlit("1");
    reveal_strlit("2");
    reveal_strlit("3");
    assert("help"@[0] == 'h');
    assert("quit"@[0] == 'q');
    assert("exit"@[0] == 'e');
    assert("history"@[0] == 'h');
    assert("endings"@[0] == 'e');
    assert("back"@[0] == 'b');
    assert("history"@[1] == 'i');
    assert("endings"@[1] == 'n');
    assert("1"@[0] == '1');
    assert("2"@[0] == '2');
    assert("3"@[0] == '3');
}

/// A global command other than `back` — `help`, `history`, `endings`,
/// `quit`, `exit` — never moves the player, never touches the history,
/// and never changes the unlocked endings, whatever the current node
/// holds.
pub proof fn lemma_global_command_precedence(st: StoryModel, s: SessionModel, cmd: Seq<char>)
    requires
        cmd == "help"@ || cmd == "history"@ || cmd == "endings"@ || cmd == "quit"@ || cmd
            == "exit"@,
    ensures
        step(st, s, cmd).current == s.current,
        step(st, s, cmd).history == s.history,
        step(st, s, cmd).endings == s.endings,
        step(st, s, cmd).ended == s.ended,
{
}

/// The `back` command changes only the position, the popped history,
/// the ended flag and the message: the unlocked endings stay, whatever
/// the current node holds.
pub proof fn lemma_back_precedence(st: StoryModel, s: SessionModel)
    ensures
        step(st, s, "back"@).endings == s.endings,
        s.history.len() > 0 ==> step(st, s, "back"@).current == s.history.last()
            && step(st, s, "back"@).history == s.history.drop_last(),
        s.history.len() == 0 ==> step(st, s, "back"@).current == s.current && step(
            st,
            s,
            "back"@,
        ).history == s.history,
{
    lemma_command_literals();
}

/// On any node, `help` sets the message to the fixed help text and
/// leaves the position unchanged.
pub proof fn lemma_help_shows_help(st: StoryModel, s: SessionModel)
    ensures
        step(st, s, "help"@).message == Some(help_text()),
        step(st, s, "help"@).current == s.current,
{
    reveal_strlit("help");
}

/// True when the command ends the session without demanding a redraw:
/// the global `quit`/`exit`, or the ending screen's quit choice.
pub open spec fn is_quit_command(st: StoryModel, s: SessionModel, cmd: Seq<char>) -> bool {
    ||| cmd == "quit"@
    ||| cmd == "exit"@
    ||| (st.has_node(s.current) && st.node_of(s.current).ending is Some && cmd == "3"@)
}

/// An empty command is a no-op; every other accepted input except a
/// quit forces a redraw; and a step never clears the flag — it stays
/// set until the host clears it.
pub proof fn lemma_redraw_monotone(st: StoryModel, s: SessionModel, cmd: Seq<char>)
    ensures
        cmd.len() == 0 ==> step(st, s, cmd) == s,
        step(st, s, cmd).should_redraw == (s.should_redraw || (cmd.len() > 0
            && !is_quit_command(st, s, cmd))),
{
    lemma_command_literals();
}

/// On a node with `k` choices and no ending, a number within `1..=k`
/// moves to that choice's target and pushes the departed node onto the
/// history; any other number, and any input that is not a number, leaves
/// position and history alone and sets the exact hint message.
pub proof fn lemma_choice_bounds(st: StoryModel, s: SessionModel, cmd: Seq<char>)
    requires
        st.has_node(s.current),
        st.node_of(s.current).ending is None,
        cmd.len() > 0,
        cmd != "help"@ && cmd != "quit"@ && cmd != "exit"@ && cmd != "history"@ && cmd
            != "endings"@ && cmd != "back"@,
    ensures
        ({
            let k = st.node_of(s.current).choices.len() as int;
            let r = step(st, s, cmd);
            &&& (match parsed_dec(cmd) {
                Some(n) => {
                    &&& (1 <= n <= k ==> r.current == st.node_of(
                        s.current,
                    ).choices[n - 1].next && r.history == s.history.push(s.current)
                        && r.should_redraw)
                    &&& (!(1 <= n <= k) ==> r.current == s.current && r.history
                        == s.history && r.message == Some(range_hint_text(k))
                        && r.should_redraw)
                },
                None => r.current == s.current && r.history == s.history && r.message
                    == Some(number_hint_text()) && r.should_redraw,
            })
        }),
{
}

/// Choosing into a neighbor and stepping straight back restores the
/// position and leaves the history exactly as it was before the choice.
pub proof fn lemma_back_undoes_choice(st: StoryModel, s: SessionModel, n: int)
    requires
        s.wf(),
        st.has_node(s.current),
        st.node_of(s.current).ending is None,
        1 <= n <= st.node_of(s.current).choices.len(),
        n <= usize::MAX as int,
    ensures
        ({
            let s1 = step(st, s, dec_str(n));
            let s2 = step(st, s1, "back"@);
            &&& s1.history == s.history.push(s.current)
            &&& s2.current == s.current
            &&& s2.history == s.history
        }),
{
    lemma_dec_str_roundtrip(n);
    lemma_dec_str_is_no_command(n);
    let cmd = dec_str(n);
    assert(parsed_dec(cmd) == Some(n));
    let s1 = step(st, s, cmd);
    assert(s1.history == s.history.push(s.current));
    lemma_command_literals();
    let s2 = step(st, s1, "back"@);
    assert(s1.history.len() > 0);
    assert(s2.current == s.current);
    assert(s2.history =~= s.history);
}

/// A decimal numeral reads back as the number it was written from.
pub proof fn lemma_dec_str_roundtrip(n: int)
    requires
        0 <= n,
    ensures
        dec_str(n).len() >= 1,
        all_digits(dec_str(n)),
        dec_val(dec_str(n)) == n,
    decreases n,
{
    if n < 10 {
        let s = dec_str(n);
        assert(s == seq![digit_char(n)]);
        assert(is_digit_char(digit_char(n)));
        assert(s.len() == 1);
        assert(s.last() == digit_char(n));
        assert(s.drop_last() =~= Seq::<char>::empty());
        assert(dec_val(Seq::<char>::empty()) == 0);
        assert(dec_val(s) == dec_val(s.drop_last()) * 10 + digit_val(s.last()));
        assert(dec_val(s) == digit_val(digit_char(n)));
        assert(digit_val(digit_char(n)) == n);
    } else {
        lemma_dec_str_roundtrip(n / 10);
        let a = dec_str(n / 10);
        let s = dec_str(n);
        assert(s == a + seq![digit_char(n % 10)]);
        assert(s.drop_last() =~= a);
        assert(s.last() == digit_char(n % 10));
        assert(is_digit_char(digit_char(n % 10)));
        assert(dec_val(s) == dec_val(a) * 10 + digit_val(digit_char(n % 10)));
        assert(digit_val(digit_char(n % 10)) == n % 10);
        assert((n / 10) * 10 + n % 10 == n);
        assert(all_digits(s)) by {
            assert(forall|i: int| 0 <= i < a.len() ==> s[i] == a[i]);
        }
    }
}

/// A numeral is never mistaken for a word command: every character is a
/// digit, and each command word starts with a letter.
pub proof fn lemma_dec_str_is_no_command(n: int)
    requires
        0 <= n,
    ensures
        dec_str(n) != "help"@,
        dec_str(n) != "quit"@,
        dec_str(n) != "exit"@,
        dec_str(n) != "history"@,
        dec_str(n) != "endings"@,
        dec_str(n) != "back"@,
{
    lemma_dec_str_roundtrip(n);
    let s = dec_str(n);
    assert(is_digit_char(s[0]));
    reveal_strlit("help");
    reveal_strlit("quit");
    reveal_strlit("exit");
    reveal_strlit("history");
    reveal_strlit("endings");
    reveal_strlit("back");
    assert("help"@[0] == 'h');
    assert("quit"@[0] == 'q');
    assert("exit"@[0] == 'e');
    assert("history"@[0] == 'h');
    assert("endings"@[0] == 'e');
    assert("back"@[0] == 'b');
}

} // verus!
