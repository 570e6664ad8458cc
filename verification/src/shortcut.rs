//! Shortcut identities and the text that names them.
//!
//! A shortcut is written as tokens joined by `+`, such as `ctrl+alt+m`. The
//! tokens `shift`, `alt` and `ctrl` set a modifier each; any other token names
//! the base key, and of several such tokens the last one counts.

use vstd::prelude::*;

verus! {

/// The character that separates the tokens of a shortcut text.
pub const SEPARATOR: char = '+';

/// Mathematical model of a shortcut identity: three modifier flags and the
/// text of the base key, if there is one.
pub struct Shortcut {
    pub shift: bool,
    pub alt: bool,
    pub ctrl: bool,
    pub base: Option<Seq<char>>,
}

/// The token that sets the shift modifier.
pub open spec fn shift_keyword() -> Seq<char> {
    "shift"@
}

/// The token that sets the alt modifier.
pub open spec fn alt_keyword() -> Seq<char> {
    "alt"@
}

/// The token that sets the ctrl modifier.
pub open spec fn ctrl_keyword() -> Seq<char> {
    "ctrl"@
}

/// A token is a modifier exactly if it is spelled like one of the three
/// keywords, letter for letter.
pub open spec fn is_modifier(token: Seq<char>) -> bool {
    token == shift_keyword() || token == alt_keyword() || token == ctrl_keyword()
}

/// Index of the last separator in `s`, or -1 if there is none.
pub open spec fn last_separator(s: Seq<char>) -> int
    decreases s.len(),
{
    if s.len() == 0 {
        -1
    } else if s.last() == SEPARATOR {
        s.len() - 1
    } else {
        last_separator(s.drop_last())
    }
}

/// `last_separator` points at a separator that no separator follows.
pub proof fn lemma_last_separator(s: Seq<char>)
    ensures
        -1 <= last_separator(s) < s.len(),
        last_separator(s) >= 0 ==> s[last_separator(s)] == SEPARATOR,
        forall|j: int| last_separator(s) < j < s.len() ==> s[j] != SEPARATOR,
    decreases s.len(),
{
    if s.len() > 0 && s.last() != SEPARATOR {
        let init = s.drop_last();
        lemma_last_separator(init);
        assert forall|j: int| last_separator(s) < j < s.len() implies s[j] != SEPARATOR by {
            if j < init.len() {
                assert(init[j] == s[j]);
            }
        }
    }
}

/// The three modifier keywords are three different texts.
pub proof fn lemma_keywords_distinct()
    ensures
        shift_keyword() != alt_keyword(),
        shift_keyword() != ctrl_keyword(),
        alt_keyword() != ctrl_keyword(),
{
    reveal_strlit("shift");
    reveal_strlit("alt");
    reveal_strlit("ctrl");
    assert(shift_keyword().len() == 5);
    assert(alt_keyword().len() == 3);
    assert(ctrl_keyword().len() == 4);
}

/// The tokens of a shortcut text: what stands between the separators, empty
/// tokens included. A text without separator is one token.
pub open spec fn tokens(s: Seq<char>) -> Seq<Seq<char>>
    decreases s.len(),
    via tokens_decreases
{
    let at = last_separator(s);
    if at < 0 {
        seq![s]
    } else {
        tokens(s.subrange(0, at)).push(s.subrange(at + 1, s.len() as int))
    }
}

#[via_fn]
proof fn tokens_decreases(s: Seq<char>) {
    lemma_last_separator(s);
}

/// The last token that is no modifier keyword, if there is one.
pub open spec fn last_base(ts: Seq<Seq<char>>) -> Option<Seq<char>>
    decreases ts.len(),
{
    if ts.len() == 0 {
        None
    } else if !is_modifier(ts.last()) {
        Some(ts.last())
    } else {
        last_base(ts.drop_last())
    }
}

/// The identity that a sequence of tokens names.
pub open spec fn shortcut_of_tokens(ts: Seq<Seq<char>>) -> Shortcut {
    Shortcut {
        shift: ts.contains(shift_keyword()),
        alt: ts.contains(alt_keyword()),
        ctrl: ts.contains(ctrl_keyword()),
        base: last_base(ts),
    }
}

/// The identity that a shortcut text names.
pub open spec fn shortcut_of(s: Seq<char>) -> Shortcut {
    shortcut_of_tokens(tokens(s))
}

impl Shortcut {
    /// The identity without modifier and without base key.
    pub open spec fn none() -> Shortcut {
        Shortcut { shift: false, alt: false, ctrl: false, base: None }
    }

    /// The identity after one more token has been read.
    pub open spec fn with_token(self, token: Seq<char>) -> Shortcut {
        if token == shift_keyword() {
            Shortcut { shift: true, ..self }
        } else if token == alt_keyword() {
            Shortcut { alt: true, ..self }
        } else if token == ctrl_keyword() {
            Shortcut { ctrl: true, ..self }
        } else {
            Shortcut { base: Some(token), ..self }
        }
    }
}

/// Reading one more token changes the identity as `with_token` says.
pub proof fn lemma_shortcut_of_tokens_push(ts: Seq<Seq<char>>, token: Seq<char>)
    ensures
        shortcut_of_tokens(ts.push(token)) == shortcut_of_tokens(ts).with_token(token),
        shortcut_of_tokens(Seq::empty()) == Shortcut::none(),
{
    lemma_keywords_distinct();
    let more = ts.push(token);
    assert(more.drop_last() =~= ts);
    assert(more.last() == token);
    assert forall|k: Seq<char>| more.contains(k) <==> (ts.contains(k) || k == token) by {
        if ts.contains(k) {
            let i = choose|i: int| 0 <= i < ts.len() && ts[i] == k;
            assert(more[i] == k);
        }
        if k == token {
            assert(more[ts.len() as int] == k);
        }
    }
    assert(!Seq::<Seq<char>>::empty().contains(shift_keyword()));
    assert(!Seq::<Seq<char>>::empty().contains(alt_keyword()));
    assert(!Seq::<Seq<char>>::empty().contains(ctrl_keyword()));
}

/// The shortcut text that spells the given tokens: the tokens in their order,
/// with a separator between neighbours.
pub open spec fn join(ts: Seq<Seq<char>>) -> Seq<char>
    decreases ts.len(),
{
    if ts.len() == 0 {
        Seq::empty()
    } else if ts.len() == 1 {
        ts[0]
    } else {
        join(ts.drop_last()) + seq![SEPARATOR] + ts.last()
    }
}

/// No token holds a separator.
pub open spec fn separator_free(ts: Seq<Seq<char>>) -> bool {
    forall|i: int| 0 <= i < ts.len() ==> !(#[trigger] ts[i]).contains(SEPARATOR)
}

/// At most one token is something else than a modifier keyword.
pub open spec fn at_most_one_base(ts: Seq<Seq<char>>) -> bool {
    forall|i: int, j: int|
        0 <= i < j < ts.len() ==> is_modifier(#[trigger] ts[i]) || is_modifier(#[trigger] ts[j])
}

proof fn lemma_last_separator_absent(s: Seq<char>)
    requires
        !s.contains(SEPARATOR),
    ensures
        last_separator(s) == -1,
    decreases s.len(),
{
    if s.len() > 0 {
        assert(s[s.len() - 1] != SEPARATOR);
        let init = s.drop_last();
        assert forall|i: int| 0 <= i < init.len() implies init[i] != SEPARATOR by {
            assert(init[i] == s[i]);
        }
        lemma_last_separator_absent(init);
    }
}

proof fn lemma_last_separator_before(a: Seq<char>, b: Seq<char>)
    requires
        !b.contains(SEPARATOR),
    ensures
        last_separator(a + seq![SEPARATOR] + b) == a.len(),
    decreases b.len(),
{
    let s = a + seq![SEPARATOR] + b;
    if b.len() == 0 {
        assert(s.last() == SEPARATOR);
    } else {
        assert(b[b.len() - 1] != SEPARATOR);
        assert(s.last() == b.last());
        let init = b.drop_last();
        assert forall|i: int| 0 <= i < init.len() implies init[i] != SEPARATOR by {
            assert(init[i] == b[i]);
        }
        assert(s.drop_last() =~= a + seq![SEPARATOR] + init);
        lemma_last_separator_before(a, init);
    }
}

/// Splitting undoes joining: a text spelled from one or more tokens that hold
/// no separator has exactly these tokens.
pub proof fn lemma_tokens_of_join(ts: Seq<Seq<char>>)
    requires
        ts.len() > 0,
        separator_free(ts),
    ensures
        tokens(join(ts)) == ts,
    decreases ts.len(),
{
    if ts.len() == 1 {
        lemma_last_separator_absent(ts[0]);
        assert(tokens(join(ts)) =~= ts);
    } else {
        let init = ts.drop_last();
        let head = join(init);
        let text = join(ts);
        assert(separator_free(init)) by {
            assert forall|i: int| 0 <= i < init.len() implies !(#[trigger] init[i]).contains(
                SEPARATOR,
            ) by {
                assert(init[i] == ts[i]);
            }
        }
        lemma_tokens_of_join(init);
        lemma_last_separator_before(head, ts.last());
        assert(text.subrange(0, head.len() as int) =~= head);
        assert(text.subrange(head.len() as int + 1, text.len() as int) =~= ts.last());
        assert(tokens(text) =~= ts);
    }
}

/// Joining undoes splitting: the tokens of a text, of which there is at least
/// one and none of which holds a separator, spell the text.
pub proof fn lemma_join_of_tokens(s: Seq<char>)
    ensures
        tokens(s).len() > 0,
        separator_free(tokens(s)),
        join(tokens(s)) == s,
    decreases s.len(),
{
    lemma_last_separator(s);
    let at = last_separator(s);
    if at >= 0 {
        let head = s.subrange(0, at);
        let tail = s.subrange(at + 1, s.len() as int);
        lemma_join_of_tokens(head);
        let ts = tokens(s);
        assert(ts.drop_last() =~= tokens(head));
        assert(ts.last() == tail);
        assert(join(ts) =~= s);
        assert forall|i: int| 0 <= i < ts.len() implies !(#[trigger] ts[i]).contains(
            SEPARATOR,
        ) by {
            if i < ts.len() - 1 {
                assert(ts[i] == tokens(head)[i]);
            }
        }
    }
}

/// What `last_base` finds is a token of the sequence and no modifier; it
/// finds nothing only where every token is a modifier.
proof fn lemma_last_base(ts: Seq<Seq<char>>)
    ensures
        match last_base(ts) {
            Some(t) => ts.contains(t) && !is_modifier(t),
            None => forall|i: int| 0 <= i < ts.len() ==> is_modifier(#[trigger] ts[i]),
        },
    decreases ts.len(),
{
    if ts.len() > 0 {
        if is_modifier(ts.last()) {
            let init = ts.drop_last();
            lemma_last_base(init);
            match last_base(init) {
                Some(t) => {
                    let i = choose|i: int| 0 <= i < init.len() && init[i] == t;
                    assert(ts[i] == t);
                },
                None => {
                    assert forall|i: int| 0 <= i < ts.len() implies is_modifier(
                        #[trigger] ts[i],
                    ) by {
                        if i < init.len() {
                            assert(init[i] == ts[i]);
                        }
                    }
                },
            }
        } else {
            assert(ts[ts.len() - 1] == ts.last());
        }
    }
}

/// Parsing does not depend on the order of the tokens: two texts spelled from
/// the same tokens, of which at most one is no modifier keyword, name the same
/// identity. (`ctrl+shift+a` and `shift+ctrl+a`, for one.)
pub proof fn lemma_parse_order_independent(a: Seq<Seq<char>>, b: Seq<Seq<char>>)
    requires
        a.to_multiset() == b.to_multiset(),
        separator_free(a),
        at_most_one_base(a),
    ensures
        shortcut_of(join(a)) == shortcut_of(join(b)),
{
    a.to_multiset_ensures();
    b.to_multiset_ensures();
    assert(a.len() == b.len());
    if a.len() > 0 {
        assert forall|t: Seq<char>| a.contains(t) <==> b.contains(t) by {
            assert(a.contains(t) <==> a.to_multiset().count(t) > 0);
            assert(b.contains(t) <==> b.to_multiset().count(t) > 0);
        }
        assert(separator_free(b)) by {
            assert forall|j: int| 0 <= j < b.len() implies !(#[trigger] b[j]).contains(
                SEPARATOR,
            ) by {
                assert(b.contains(b[j]));
                let i = choose|i: int| 0 <= i < a.len() && a[i] == b[j];
                assert(!a[i].contains(SEPARATOR));
            }
        }
        lemma_tokens_of_join(a);
        lemma_tokens_of_join(b);
        lemma_last_base(a);
        lemma_last_base(b);
        match (last_base(a), last_base(b)) {
            (Some(x), Some(y)) => {
                assert(a.contains(y));
                let i = choose|i: int| 0 <= i < a.len() && a[i] == x;
                let j = choose|j: int| 0 <= j < a.len() && a[j] == y;
                assert(i == j);
            },
            (Some(x), None) => {
                assert(b.contains(x));
                let j = choose|j: int| 0 <= j < b.len() && b[j] == x;
                assert(is_modifier(b[j]));
            },
            (None, Some(y)) => {
                assert(a.contains(y));
                let i = choose|i: int| 0 <= i < a.len() && a[i] == y;
                assert(is_modifier(a[i]));
            },
            (None, None) => {},
        }
    }
}

/// A shortcut identity: which modifiers are held and which key, if any, is
/// pressed with them.
#[derive(Debug, Eq, Hash)]
pub struct Keybind {
    pub shift: bool,
    pub alt: bool,
    pub ctrl: bool,
    pub character: Option<String>,
}

impl View for Keybind {
    type V = Shortcut;

    open spec fn view(&self) -> Shortcut {
        Shortcut {
            shift: self.shift,
            alt: self.alt,
            ctrl: self.ctrl,
            base: match self.character {
                Some(c) => Some(c@),
                None => None,
            },
        }
    }
}

impl Keybind {
    /// The identity after one more token has been read. The three keyword
    /// arguments hold the modifier keywords, so that they are built once.
    fn with_token(self, token: String, shift: &String, alt: &String, ctrl: &String) -> (next:
        Keybind)
        requires
            shift@ == shift_keyword(),
            alt@ == alt_keyword(),
            ctrl@ == ctrl_keyword(),
        ensures
            next@ == self@.with_token(token@),
    {
        if token == *shift {
            Keybind { shift: true, ..self }
        } else if token == *alt {
            Keybind { alt: true, ..self }
        } else if token == *ctrl {
            Keybind { ctrl: true, ..self }
        } else {
            Keybind { character: Some(token), ..self }
        }
    }

    /// Parses a shortcut text. Every text is accepted: a token that is no
    /// modifier keyword is taken as the base key, whatever it spells.
    pub fn from_string(keybind: String) -> (parsed: Keybind)
        ensures
            parsed@ == shortcut_of(keybind@),
    {
        let text = keybind.as_str();
        let n = text.unicode_len();
        let shift = "shift".to_owned();
        let alt = "alt".to_owned();
        let ctrl = "ctrl".to_owned();
        let mut parsed = Keybind { shift: false, alt: false, ctrl: false, character: None };
        let ghost mut done: Seq<Seq<char>> = Seq::empty();
        let mut start: usize = 0;
        let mut i: usize = 0;
        proof {
            lemma_shortcut_of_tokens_push(done, Seq::empty());
            assert(text@.subrange(0, 0) =~= Seq::<char>::empty());
        }
        for c in it: text.chars()
            invariant
                it.seq() == text@,
                i == it.index(),
                n == text@.len(),
                start <= i <= n,
                shift@ == shift_keyword(),
                alt@ == alt_keyword(),
                ctrl@ == ctrl_keyword(),
                last_separator(text@.subrange(0, i as int)) == start - 1,
                start == 0 ==> done == Seq::<Seq<char>>::empty(),
                start > 0 ==> done == tokens(text@.subrange(0, start - 1)),
                parsed@ == shortcut_of_tokens(done),
        {
            let ghost seen = text@.subrange(0, i as int);
            let ghost more = text@.subrange(0, i + 1);
            proof {
                assert(more.drop_last() =~= seen);
                assert(more.last() == c);
            }
            if c == SEPARATOR {
                let token = text.substring_char(start, i).to_owned();
                proof {
                    lemma_shortcut_of_tokens_push(done, token@);
                    if start > 0 {
                        assert(seen.subrange(0, start - 1) =~= text@.subrange(0, start - 1));
                    }
                    assert(seen.subrange(start as int, seen.len() as int) =~= token@);
                    assert(tokens(seen) =~= done.push(token@));
                    done = done.push(token@);
                }
                parsed = parsed.with_token(token, &shift, &alt, &ctrl);
                start = i + 1;
            }
            i = i + 1;
        }
        let token = text.substring_char(start, n).to_owned();
        proof {
            lemma_shortcut_of_tokens_push(done, token@);
            assert(text@.subrange(0, n as int) =~= text@);
            assert(tokens(text@) =~= done.push(token@));
        }
        parsed.with_token(token, &shift, &alt, &ctrl)
    }
}

impl PartialEq for Keybind {
    fn eq(&self, other: &Self) -> (same: bool) {
        let same_base = match (&self.character, &other.character) {
            (Some(a), Some(b)) => *a == *b,
            (None, None) => true,
            _ => false,
        };
        self.shift == other.shift && self.alt == other.alt && self.ctrl == other.ctrl && same_base
    }
}

impl vstd::std_specs::cmp::PartialEqSpecImpl for Keybind {
    open spec fn obeys_eq_spec() -> bool {
        true
    }

    open spec fn eq_spec(&self, other: &Self) -> bool {
        self@ == other@
    }
}

} // verus!
