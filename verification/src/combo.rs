use vstd::prelude::*;
use crate::strutil::{
    is_space_char, join_plus, lemma_join_snoc, lemma_split_join, lemma_trim_identity, plus_free,
    spec_trim, split_plus, split_plus_exec, str_eq, trim_exec,
};

verus! {

/// The non-modifier key of a combination.
#[derive(Clone, Copy, PartialEq, Eq, Structural, Debug)]
pub enum Key {
    Letter(char),
    Digit(char),
    Function(u8),
    Space,
    Enter,
    Tab,
    Escape,
    Backspace,
    Delete,
}

/// One of the four recognized modifier keys. The aliases Option/Alt collapse
/// to `Alt`; Cmd/Command/Meta/Super collapse to `Meta`.
#[derive(Clone, Copy, PartialEq, Eq, Structural, Debug)]
pub enum Modifier {
    Control,
    Alt,
    Shift,
    Meta,
}

/// A set of modifier flags plus exactly one non-modifier key.
/// Equality is structural, never string-based.
#[derive(Clone, Copy, PartialEq, Eq, Structural, Debug)]
pub struct KeyCombination {
    pub ctrl: bool,
    pub alt: bool,
    pub shift: bool,
    pub meta: bool,
    pub key: Key,
}

pub open spec fn key_wf(k: Key) -> bool {
    match k {
        Key::Letter(c) => 'A' as u32 <= c as u32 && c as u32 <= 'Z' as u32,
        Key::Digit(c) => '0' as u32 <= c as u32 && c as u32 <= '9' as u32,
        Key::Function(n) => 1 <= n <= 12,
        _ => true,
    }
}

pub open spec fn combo_wf(c: KeyCombination) -> bool {
    key_wf(c.key)
}

/// Which modifier a (trimmed) token denotes, if any.
pub open spec fn spec_modifier_of(t: Seq<char>) -> Option<Modifier> {
    if t == "Ctrl"@ || t == "Control"@ {
        Option::Some(Modifier::Control)
    } else if t == "Alt"@ || t == "Option"@ {
        Option::Some(Modifier::Alt)
    } else if t == "Shift"@ {
        Option::Some(Modifier::Shift)
    } else if t == "Cmd"@ || t == "Command"@ || t == "Meta"@ || t == "Super"@ {
        Option::Some(Modifier::Meta)
    } else {
        Option::None
    }
}

/// Which non-modifier key a (trimmed) token denotes, if any.
pub open spec fn spec_key_of(t: Seq<char>) -> Option<Key> {
    if t.len() == 1 && 'A' as u32 <= t[0] as u32 && t[0] as u32 <= 'Z' as u32 {
        Option::Some(Key::Letter(t[0]))
    } else if t.len() == 1 && '0' as u32 <= t[0] as u32 && t[0] as u32 <= '9' as u32 {
        Option::Some(Key::Digit(t[0]))
    } else if t == "Space"@ {
        Option::Some(Key::Space)
    } else if t == "Enter"@ || t == "Return"@ {
        Option::Some(Key::Enter)
    } else if t == "Tab"@ {
        Option::Some(Key::Tab)
    } else if t == "Escape"@ || t == "Esc"@ {
        Option::Some(Key::Escape)
    } else if t == "Backspace"@ {
        Option::Some(Key::Backspace)
    } else if t == "Delete"@ || t == "Del"@ {
        Option::Some(Key::Delete)
    } else if t == "F1"@ {
        Option::Some(Key::Function(1))
    } else if t == "F2"@ {
        Option::Some(Key::Function(2))
    } else if t == "F3"@ {
        Option::Some(Key::Function(3))
    } else if t == "F4"@ {
        Option::Some(Key::Function(4))
    } else if t == "F5"@ {
        Option::Some(Key::Function(5))
    } else if t == "F6"@ {
        Option::Some(Key::Function(6))
    } else if t == "F7"@ {
        Option::Some(Key::Function(7))
    } else if t == "F8"@ {
        Option::Some(Key::Function(8))
    } else if t == "F9"@ {
        Option::Some(Key::Function(9))
    } else if t == "F10"@ {
        Option::Some(Key::Function(10))
    } else if t == "F11"@ {
        Option::Some(Key::Function(11))
    } else if t == "F12"@ {
        Option::Some(Key::Function(12))
    } else {
        Option::None
    }
}

/// The state of a left-to-right scan over the tokens of a combination string.
pub struct ComboAcc {
    pub ctrl: bool,
    pub alt: bool,
    pub shift: bool,
    pub meta: bool,
    pub key: Option<Key>,
}

pub open spec fn init_acc() -> ComboAcc {
    ComboAcc { ctrl: false, alt: false, shift: false, meta: false, key: Option::None }
}

/// One token of the scan: a modifier token sets its flag, a key token
/// replaces the key (last one wins), an unknown token is ignored.
pub open spec fn acc_step(acc: ComboAcc, t: Seq<char>) -> ComboAcc {
    match spec_modifier_of(t) {
        Option::Some(Modifier::Control) => ComboAcc { ctrl: true, ..acc },
        Option::Some(Modifier::Alt) => ComboAcc { alt: true, ..acc },
        Option::Some(Modifier::Shift) => ComboAcc { shift: true, ..acc },
        Option::Some(Modifier::Meta) => ComboAcc { meta: true, ..acc },
        Option::None => match spec_key_of(t) {
            Option::Some(k) => ComboAcc { key: Option::Some(k), ..acc },
            Option::None => acc,
        },
    }
}

pub open spec fn parse_fold(ts: Seq<Seq<char>>, acc: ComboAcc) -> ComboAcc
    decreases ts.len(),
{
    if ts.len() == 0 {
        acc
    } else {
        parse_fold(ts.drop_first(), acc_step(acc, ts[0]))
    }
}

/// The trimmed tokens of a combination string.
pub open spec fn spec_tokens_of(s: Seq<char>) -> Seq<Seq<char>> {
    split_plus(s).map_values(|t: Seq<char>| spec_trim(t))
}

/// What parsing a combination string yields: the accumulated modifier flags
/// and key if some token named a key, and failure otherwise.
pub open spec fn spec_parse_shortcut(s: Seq<char>) -> Option<KeyCombination> {
    let acc = parse_fold(spec_tokens_of(s), init_acc());
    match acc.key {
        Option::None => Option::<KeyCombination>::None,
        Option::Some(k) => Option::Some(
            KeyCombination { ctrl: acc.ctrl, alt: acc.alt, shift: acc.shift, meta: acc.meta, key: k },
        ),
    }
}

/// The canonical rendering of the non-modifier key.
pub open spec fn spec_key_token(k: Key) -> Seq<char> {
    match k {
        Key::Letter(c) => seq![c],
        Key::Digit(c) => seq![c],
        Key::Space => "Space"@,
        Key::Enter => "Enter"@,
        Key::Tab => "Tab"@,
        Key::Escape => "Escape"@,
        Key::Backspace => "Backspace"@,
        Key::Delete => "Delete"@,
        Key::Function(n) => if n == 1 {
            "F1"@
        } else if n == 2 {
            "F2"@
        } else if n == 3 {
            "F3"@
        } else if n == 4 {
            "F4"@
        } else if n == 5 {
            "F5"@
        } else if n == 6 {
            "F6"@
        } else if n == 7 {
            "F7"@
        } else if n == 8 {
            "F8"@
        } else if n == 9 {
            "F9"@
        } else if n == 10 {
            "F10"@
        } else if n == 11 {
            "F11"@
        } else {
            "F12"@
        },
    }
}

/// The canonical token list: modifiers in the fixed order Control, Alt,
/// Shift, Meta, then the key.
pub open spec fn spec_canonical_tokens(c: KeyCombination) -> Seq<Seq<char>> {
    (if c.ctrl {
        seq!["Ctrl"@]
    } else {
        Seq::<Seq<char>>::empty()
    }) + (if c.alt {
        seq!["Alt"@]
    } else {
        Seq::<Seq<char>>::empty()
    }) + (if c.shift {
        seq!["Shift"@]
    } else {
        Seq::<Seq<char>>::empty()
    }) + (if c.meta {
        seq!["Cmd"@]
    } else {
        Seq::<Seq<char>>::empty()
    }) + seq![spec_key_token(c.key)]
}

/// The canonical string form of a combination, used for reverse lookup.
pub open spec fn spec_canonical(c: KeyCombination) -> Seq<char> {
    join_plus(spec_canonical_tokens(c))
}

/// Maps a single token to the key it names, mirroring `spec_key_of`.
pub fn parse_key(key: &str) -> (r: Option<Key>)
    ensures
        r == spec_key_of(key@),
{
    if key.unicode_len() == 1 {
        let c = key.get_char(0);
        let u = c as u32;
        if 'A' as u32 <= u && u <= 'Z' as u32 {
            return Option::Some(Key::Letter(c));
        }
        if '0' as u32 <= u && u <= '9' as u32 {
            return Option::Some(Key::Digit(c));
        }
    }
    if str_eq(key, "Space") {
        Option::Some(Key::Space)
    } else if str_eq(key, "Enter") || str_eq(key, "Return") {
        Option::Some(Key::Enter)
    } else if str_eq(key, "Tab") {
        Option::Some(Key::Tab)
    } else if str_eq(key, "Escape") || str_eq(key, "Esc") {
        Option::Some(Key::Escape)
    } else if str_eq(key, "Backspace") {
        Option::Some(Key::Backspace)
    } else if str_eq(key, "Delete") || str_eq(key, "Del") {
        Option::Some(Key::Delete)
    } else if str_eq(key, "F1") {
        Option::Some(Key::Function(1))
    } else if str_eq(key, "F2") {
        Option::Some(Key::Function(2))
    } else if str_eq(key, "F3") {
        Option::Some(Key::Function(3))
    } else if str_eq(key, "F4") {
        Option::Some(Key::Function(4))
    } else if str_eq(key, "F5") {
        Option::Some(Key::Function(5))
    } else if str_eq(key, "F6") {
        Option::Some(Key::Function(6))
    } else if str_eq(key, "F7") {
        Option::Some(Key::Function(7))
    } else if str_eq(key, "F8") {
        Option::Some(Key::Function(8))
    } else if str_eq(key, "F9") {
        Option::Some(Key::Function(9))
    } else if str_eq(key, "F10") {
        Option::Some(Key::Function(10))
    } else if str_eq(key, "F11") {
        Option::Some(Key::Function(11))
    } else if str_eq(key, "F12") {
        Option::Some(Key::Function(12))
    } else {
        Option::None
    }
}

/// Maps a single token to the modifier it names, mirroring
/// `spec_modifier_of`.
pub fn parse_modifier(t: &str) -> (r: Option<Modifier>)
    ensures
        r == spec_modifier_of(t@),
{
    if str_eq(t, "Ctrl") || str_eq(t, "Control") {
        Option::Some(Modifier::Control)
    } else if str_eq(t, "Alt") || str_eq(t, "Option") {
        Option::Some(Modifier::Alt)
    } else if str_eq(t, "Shift") {
        Option::Some(Modifier::Shift)
    } else if str_eq(t, "Cmd") || str_eq(t, "Command") || str_eq(t, "Meta") || str_eq(t, "Super") {
        Option::Some(Modifier::Meta)
    } else {
        Option::None
    }
}

/// Parses a `+`-separated combination string: tokens are trimmed and scanned
/// left to right; modifier tokens accumulate, the last key token wins,
/// unknown tokens are ignored, and the parse fails exactly when no token
/// names a key.
pub fn parse_shortcut(combo: &str) -> (r: Option<KeyCombination>)
    ensures
        r == spec_parse_shortcut(combo@),
{
    let parts = split_plus_exec(combo);
    let ghost toks = spec_tokens_of(combo@);
    proof {
        assert(toks.len() == parts.len());
        assert(toks.skip(0) =~~= toks);
    }
    let mut ctrl = false;
    let mut alt = false;
    let mut shift = false;
    let mut meta = false;
    let mut key: Option<Key> = Option::None;
    let mut idx: usize = 0;
    while idx < parts.len()
        invariant
            toks == spec_tokens_of(combo@),
            parts.deep_view() == split_plus(combo@),
            toks.len() == parts.len(),
            idx <= parts.len(),
            parse_fold(toks, init_acc()) == parse_fold(
                toks.skip(idx as int),
                (ComboAcc { ctrl, alt, shift, meta, key }),
            ),
        decreases parts.len() - idx,
    {
        let ghost acc0 = ComboAcc { ctrl, alt, shift, meta, key };
        let t = trim_exec(parts[idx].as_str());
        proof {
            assert(parts.deep_view()[idx as int] == parts@[idx as int]@);
            assert(toks[idx as int] == spec_trim(split_plus(combo@)[idx as int]));
            assert(t@ == toks[idx as int]);
        }
        match parse_modifier(t.as_str()) {
            Option::Some(Modifier::Control) => {
                ctrl = true;
            },
            Option::Some(Modifier::Alt) => {
                alt = true;
            },
            Option::Some(Modifier::Shift) => {
                shift = true;
            },
            Option::Some(Modifier::Meta) => {
                meta = true;
            },
            Option::None => {
                match parse_key(t.as_str()) {
                    Option::Some(k) => {
                        key = Option::Some(k);
                    },
                    Option::None => {},
                }
            },
        }
        proof {
            let acc1 = ComboAcc { ctrl, alt, shift, meta, key };
            assert(acc1 == acc_step(acc0, toks[idx as int]));
            assert(toks.skip(idx as int)[0] == toks[idx as int]);
            assert(toks.skip(idx as int).drop_first() =~~= toks.skip(idx as int + 1));
            assert(parse_fold(toks.skip(idx as int), acc0) == parse_fold(
                toks.skip(idx as int + 1),
                acc1,
            ));
        }
        idx = idx + 1;
    }
    proof {
        assert(toks.skip(parts.len() as int) =~~= Seq::<Seq<char>>::empty());
    }
    match key {
        Option::Some(k) => Option::Some(KeyCombination { ctrl, alt, shift, meta, key: k }),
        Option::None => Option::None,
    }
}

pub proof fn lemma_key_of_wf(t: Seq<char>)
    ensures
        spec_key_of(t) matches Option::Some(k) ==> key_wf(k),
{
}

proof fn lemma_fold_preserves_wf(ts: Seq<Seq<char>>, acc: ComboAcc)
    requires
        acc.key matches Option::Some(k) ==> key_wf(k),
    ensures
        parse_fold(ts, acc).key matches Option::Some(k) ==> key_wf(k),
    decreases ts.len(),
{
    if ts.len() > 0 {
        lemma_key_of_wf(ts[0]);
        lemma_fold_preserves_wf(ts.drop_first(), acc_step(acc, ts[0]));
    }
}

/// Every combination that a string parses to is well formed.
pub proof fn lemma_parse_wf(s: Seq<char>, c: KeyCombination)
    requires
        spec_parse_shortcut(s) == Option::Some(c),
    ensures
        combo_wf(c),
{
    lemma_fold_preserves_wf(spec_tokens_of(s), init_acc());
}

/// Folding the scan distributes over concatenation of token lists.
pub proof fn lemma_fold_concat(a: Seq<Seq<char>>, b: Seq<Seq<char>>, acc: ComboAcc)
    ensures
        parse_fold(a + b, acc) == parse_fold(b, parse_fold(a, acc)),
    decreases a.len(),
{
    if a.len() == 0 {
        assert(a + b =~~= b);
    } else {
        assert((a + b)[0] == a[0]);
        assert((a + b).drop_first() =~~= a.drop_first() + b);
        lemma_fold_concat(a.drop_first(), b, acc_step(acc, a[0]));
    }
}

/// A token is clean when it is non-empty, free of the separator, and free
/// of space characters at either end, so that trimming leaves it unchanged.
pub open spec fn clean_token(t: Seq<char>) -> bool {
    t.len() >= 1 && plus_free(t) && !is_space_char(t[0]) && !is_space_char(t[t.len() - 1])
}

/// The character contents of every token literal of the symbol table.
proof fn lemma_literal_contents()
    ensures
        "Ctrl"@ == seq!['C', 't', 'r', 'l'],
        "Control"@ == seq!['C', 'o', 'n', 't', 'r', 'o', 'l'],
        "Alt"@ == seq!['A', 'l', 't'],
        "Option"@ == seq!['O', 'p', 't', 'i', 'o', 'n'],
        "Shift"@ == seq!['S', 'h', 'i', 'f', 't'],
        "Cmd"@ == seq!['C', 'm', 'd'],
        "Command"@ == seq!['C', 'o', 'm', 'm', 'a', 'n', 'd'],
        "Meta"@ == seq!['M', 'e', 't', 'a'],
        "Super"@ == seq!['S', 'u', 'p', 'e', 'r'],
        "Space"@ == seq!['S', 'p', 'a', 'c', 'e'],
        "Enter"@ == seq!['E', 'n', 't', 'e', 'r'],
        "Return"@ == seq!['R', 'e', 't', 'u', 'r', 'n'],
        "Tab"@ == seq!['T', 'a', 'b'],
        "Escape"@ == seq!['E', 's', 'c', 'a', 'p', 'e'],
        "Esc"@ == seq!['E', 's', 'c'],
        "Backspace"@ == seq!['B', 'a', 'c', 'k', 's', 'p', 'a', 'c', 'e'],
        "Delete"@ == seq!['D', 'e', 'l', 'e', 't', 'e'],
        "Del"@ == seq!['D', 'e', 'l'],
        "F1"@ == seq!['F', '1'],
        "F2"@ == seq!['F', '2'],
        "F3"@ == seq!['F', '3'],
        "F4"@ == seq!['F', '4'],
        "F5"@ == seq!['F', '5'],
        "F6"@ == seq!['F', '6'],
        "F7"@ == seq!['F', '7'],
        "F8"@ == seq!['F', '8'],
        "F9"@ == seq!['F', '9'],
        "F10"@ == seq!['F', '1', '0'],
        "F11"@ == seq!['F', '1', '1'],
        "F12"@ == seq!['F', '1', '2'],
{
    reveal_strlit("Ctrl");
    reveal_strlit("Control");
    reveal_strlit("Alt");
    reveal_strlit("Option");
    reveal_strlit("Shift");
    reveal_strlit("Cmd");
    reveal_strlit("Command");
    reveal_strlit("Meta");
    reveal_strlit("Super");
    reveal_strlit("Space");
    reveal_strlit("Enter");
    reveal_strlit("Return");
    reveal_strlit("Tab");
    reveal_strlit("Escape");
    reveal_strlit("Esc");
    reveal_strlit("Backspace");
    reveal_strlit("Delete");
    reveal_strlit("Del");
    reveal_strlit("F1");
    reveal_strlit("F2");
    reveal_strlit("F3");
    reveal_strlit("F4");
    reveal_strlit("F5");
    reveal_strlit("F6");
    reveal_strlit("F7");
    reveal_strlit("F8");
    reveal_strlit("F9");
    reveal_strlit("F10");
    reveal_strlit("F11");
    reveal_strlit("F12");
    assert("Ctrl"@ =~= seq!['C', 't', 'r', 'l']);
    assert("Control"@ =~= seq!['C', 'o', 'n', 't', 'r', 'o', 'l']);
    assert("Alt"@ =~= seq!['A', 'l', 't']);
    assert("Option"@ =~= seq!['O', 'p', 't', 'i', 'o', 'n']);
    assert("Shift"@ =~= seq!['S', 'h', 'i', 'f', 't']);
    assert("Cmd"@ =~= seq!['C', 'm', 'd']);
    assert("Command"@ =~= seq!['C', 'o', 'm', 'm', 'a', 'n', 'd']);
    assert("Meta"@ =~= seq!['M', 'e', 't', 'a']);
    assert("Super"@ =~= seq!['S', 'u', 'p', 'e', 'r']);
    assert("Space"@ =~= seq!['S', 'p', 'a', 'c', 'e']);
    assert("Enter"@ =~= seq!['E', 'n', 't', 'e', 'r']);
    assert("Return"@ =~= seq!['R', 'e', 't', 'u', 'r', 'n']);
    assert("Tab"@ =~= seq!['T', 'a', 'b']);
    assert("Escape"@ =~= seq!['E', 's', 'c', 'a', 'p', 'e']);
    assert("Esc"@ =~= seq!['E', 's', 'c']);
    assert("Backspace"@ =~= seq!['B', 'a', 'c', 'k', 's', 'p', 'a', 'c', 'e']);
    assert("Delete"@ =~= seq!['D', 'e', 'l', 'e', 't', 'e']);
    assert("Del"@ =~= seq!['D', 'e', 'l']);
    assert("F1"@ =~= seq!['F', '1']);
    assert("F2"@ =~= seq!['F', '2']);
    assert("F3"@ =~= seq!['F', '3']);
    assert("F4"@ =~= seq!['F', '4']);
    assert("F5"@ =~= seq!['F', '5']);
    assert("F6"@ =~= seq!['F', '6']);
    assert("F7"@ =~= seq!['F', '7']);
    assert("F8"@ =~= seq!['F', '8']);
    assert("F9"@ =~= seq!['F', '9']);
    assert("F10"@ =~= seq!['F', '1', '0']);
    assert("F11"@ =~= seq!['F', '1', '1']);
    assert("F12"@ =~= seq!['F', '1', '2']);
}

proof fn lemma_modifier_tokens_classify()
    ensures
        spec_modifier_of("Ctrl"@) == Option::Some(Modifier::Control),
        spec_modifier_of("Alt"@) == Option::Some(Modifier::Alt),
        spec_modifier_of("Shift"@) == Option::Some(Modifier::Shift),
        spec_modifier_of("Cmd"@) == Option::Some(Modifier::Meta),
        clean_token("Ctrl"@),
        clean_token("Alt"@),
        clean_token("Shift"@),
        clean_token("Cmd"@),
{
    lemma_literal_contents();
}

proof fn lemma_key_token_classify(k: Key)
    requires
        key_wf(k),
    ensures
        clean_token(spec_key_token(k)),
        spec_modifier_of(spec_key_token(k)) is None,
        spec_key_of(spec_key_token(k)) == Option::Some(k),
{
    lemma_literal_contents();
    match k {
        Key::Letter(c) => {
            assert(spec_key_token(k) =~= seq![c]);
            if c == '+' {
                assert(c as u32 == '+' as u32);
            }
            if is_space_char(c) {
                assert(c as u32 == ' ' as u32 || c as u32 == '\t' as u32 || c as u32 == '\n' as u32
                    || c as u32 == '\r' as u32);
            }
        },
        Key::Digit(c) => {
            assert(spec_key_token(k) =~= seq![c]);
            if c == '+' {
                assert(c as u32 == '+' as u32);
            }
            if is_space_char(c) {
                assert(c as u32 == ' ' as u32 || c as u32 == '\t' as u32 || c as u32 == '\n' as u32
                    || c as u32 == '\r' as u32);
            }
        },
        _ => {},
    }
}

/// The canonical string of a well-formed combination parses back to exactly
/// that combination.
pub proof fn lemma_canonical_round_trip(c: KeyCombination)
    requires
        combo_wf(c),
    ensures
        spec_parse_shortcut(spec_canonical(c)) == Option::Some(c),
{
    reveal_with_fuel(parse_fold, 3);
    lemma_modifier_tokens_classify();
    lemma_key_token_classify(c.key);
    let ts = spec_canonical_tokens(c);
    let kt = spec_key_token(c.key);
    assert(forall|i: int|
        0 <= i < ts.len() ==> ts[i] == "Ctrl"@ || ts[i] == "Alt"@ || ts[i] == "Shift"@ || ts[i]
            == "Cmd"@ || ts[i] == kt);
    assert(forall|i: int| 0 <= i < ts.len() ==> clean_token(#[trigger] ts[i]));
    assert(forall|i: int| 0 <= i < ts.len() ==> plus_free(#[trigger] ts[i]));
    lemma_split_join(ts);
    assert(split_plus(spec_canonical(c)) == ts);
    assert(forall|i: int| 0 <= i < ts.len() ==> spec_trim(#[trigger] ts[i]) == ts[i]) by {
        assert forall|i: int| 0 <= i < ts.len() implies spec_trim(#[trigger] ts[i]) == ts[i] by {
            lemma_trim_identity(ts[i]);
        }
    }
    assert(spec_tokens_of(spec_canonical(c)) =~~= ts);
    let m_c: Seq<Seq<char>> = if c.ctrl {
        seq!["Ctrl"@]
    } else {
        Seq::empty()
    };
    let m_a: Seq<Seq<char>> = if c.alt {
        seq!["Alt"@]
    } else {
        Seq::empty()
    };
    let m_s: Seq<Seq<char>> = if c.shift {
        seq!["Shift"@]
    } else {
        Seq::empty()
    };
    let m_m: Seq<Seq<char>> = if c.meta {
        seq!["Cmd"@]
    } else {
        Seq::empty()
    };
    let acc0 = init_acc();
    lemma_fold_concat(m_c, m_a + m_s + m_m + seq![kt], acc0);
    let acc1 = parse_fold(m_c, acc0);
    lemma_fold_concat(m_a, m_s + m_m + seq![kt], acc1);
    let acc2 = parse_fold(m_a, acc1);
    lemma_fold_concat(m_s, m_m + seq![kt], acc2);
    let acc3 = parse_fold(m_s, acc2);
    lemma_fold_concat(m_m, seq![kt], acc3);
    let acc4 = parse_fold(m_m, acc3);
    assert(ts =~~= m_c + (m_a + m_s + m_m + seq![kt]));
    assert(m_a + m_s + m_m + seq![kt] =~~= m_a + (m_s + m_m + seq![kt]));
    assert(m_s + m_m + seq![kt] =~~= m_s + (m_m + seq![kt]));
    if c.ctrl {
        assert(m_c.drop_first() =~~= Seq::<Seq<char>>::empty());
        assert(acc1 == acc_step(acc0, "Ctrl"@));
    }
    if c.alt {
        assert(m_a.drop_first() =~~= Seq::<Seq<char>>::empty());
        assert(acc2 == acc_step(acc1, "Alt"@));
    }
    if c.shift {
        assert(m_s.drop_first() =~~= Seq::<Seq<char>>::empty());
        assert(acc3 == acc_step(acc2, "Shift"@));
    }
    if c.meta {
        assert(m_m.drop_first() =~~= Seq::<Seq<char>>::empty());
        assert(acc4 == acc_step(acc3, "Cmd"@));
    }
    assert(seq![kt].drop_first() =~~= Seq::<Seq<char>>::empty());
    let accf = parse_fold(seq![kt], acc4);
    assert(accf == acc_step(acc4, kt));
    assert(accf.key == Option::Some(c.key));
    assert(accf.ctrl == c.ctrl && accf.alt == c.alt && accf.shift == c.shift && accf.meta
        == c.meta);
    assert(parse_fold(spec_tokens_of(spec_canonical(c)), init_acc()) == accf);
}

/// Round-trip stability: whatever combination a valid string parses to,
/// its canonical string form parses back to the same combination, so
/// canonicalizing is idempotent across parse.
pub proof fn lemma_parse_canonical_stable(s: Seq<char>, c: KeyCombination)
    requires
        spec_parse_shortcut(s) == Option::Some(c),
    ensures
        spec_parse_shortcut(spec_canonical(c)) == Option::Some(c),
{
    lemma_parse_wf(s, c);
    lemma_canonical_round_trip(c);
}

/// The canonical string form distinguishes well-formed combinations:
/// two combinations with the same canonical form are equal.
pub proof fn lemma_canonical_injective(c1: KeyCombination, c2: KeyCombination)
    requires
        combo_wf(c1),
        combo_wf(c2),
        spec_canonical(c1) == spec_canonical(c2),
    ensures
        c1 == c2,
{
    lemma_canonical_round_trip(c1);
    lemma_canonical_round_trip(c2);
}

/// Relies on `String::push`: appends exactly one character to the string.
#[verifier::external_body]
fn push_char(s: &mut String, c: char)
    ensures
        final(s)@ == old(s)@ + seq![c],
{
    s.push(c);
}

/// Renders the key's canonical token.
pub fn key_token(k: &Key) -> (r: String)
    ensures
        r@ == spec_key_token(*k),
{
    match k {
        Key::Letter(c) => {
            let mut s = String::new();
            push_char(&mut s, *c);
            proof {
                assert(s@ =~= seq![*c]);
            }
            s
        },
        Key::Digit(c) => {
            let mut s = String::new();
            push_char(&mut s, *c);
            proof {
                assert(s@ =~= seq![*c]);
            }
            s
        },
        Key::Space => "Space".to_owned(),
        Key::Enter => "Enter".to_owned(),
        Key::Tab => "Tab".to_owned(),
        Key::Escape => "Escape".to_owned(),
        Key::Backspace => "Backspace".to_owned(),
        Key::Delete => "Delete".to_owned(),
        Key::Function(n) => {
            if *n == 1 {
                "F1".to_owned()
            } else if *n == 2 {
                "F2".to_owned()
            } else if *n == 3 {
                "F3".to_owned()
            } else if *n == 4 {
                "F4".to_owned()
            } else if *n == 5 {
                "F5".to_owned()
            } else if *n == 6 {
                "F6".to_owned()
            } else if *n == 7 {
                "F7".to_owned()
            } else if *n == 8 {
                "F8".to_owned()
            } else if *n == 9 {
                "F9".to_owned()
            } else if *n == 10 {
                "F10".to_owned()
            } else if *n == 11 {
                "F11".to_owned()
            } else {
                "F12".to_owned()
            }
        },
    }
}

/// Renders the canonical string form: modifiers in the fixed order
/// Control, Alt, Shift, Meta, then the key, joined by `+`.
pub fn shortcut_to_string(c: &KeyCombination) -> (r: String)
    ensures
        r@ == spec_canonical(*c),
{
    let mut out = String::new();
    let ghost mut ts: Seq<Seq<char>> = Seq::empty();
    let mut have = false;
    if c.ctrl {
        proof {
            lemma_join_snoc(ts, "Ctrl"@);
        }
        out.append("Ctrl");
        proof {
            ts = ts.push("Ctrl"@);
        }
        have = true;
    }
    if c.alt {
        proof {
            lemma_join_snoc(ts, "Alt"@);
        }
        if have {
            push_char(&mut out, '+');
        }
        out.append("Alt");
        proof {
            ts = ts.push("Alt"@);
        }
        have = true;
    }
    if c.shift {
        proof {
            lemma_join_snoc(ts, "Shift"@);
        }
        if have {
            push_char(&mut out, '+');
        }
        out.append("Shift");
        proof {
            ts = ts.push("Shift"@);
        }
        have = true;
    }
    if c.meta {
        proof {
            lemma_join_snoc(ts, "Cmd"@);
        }
        if have {
            push_char(&mut out, '+');
        }
        out.append("Cmd");
        proof {
            ts = ts.push("Cmd"@);
        }
        have = true;
    }
    let kt = key_token(&c.key);
    proof {
        lemma_join_snoc(ts, spec_key_token(c.key));
    }
    if have {
        push_char(&mut out, '+');
    }
    out.append(kt.as_str());
    proof {
        ts = ts.push(spec_key_token(c.key));
        assert(ts =~~= spec_canonical_tokens(*c));
    }
    out
}

} // verus!
