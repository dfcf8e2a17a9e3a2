//! Laws of the hotkey format: what the parser writes back it reads again as
//! the same binding; only the normal form of a hotkey string counts; and the
//! keys it accepts can be seen held, with the exceptions named below.
use vstd::prelude::*;
use crate::hotkeys::{
    binding_pressed, apply_token, apply_tokens, format_binding, function_key, hotkey_tokens, key_alias, main_key,
    normalize, parse_binding, prefixed_key, single_char_key, BindingView, ParseState,
};
use crate::text::{
    ascii_lower, ascii_lower_char, is_ascii_text, is_white_space, lowercase, parse_i32,
    replace_all, split_on, trim, trim_end, trim_start,
};

use crate::keys::{key_down, vk_keycodes, KeyCode};

verus! {

// ---------------------------------------------------------------------------
// Text lemmas
// ---------------------------------------------------------------------------

/// Nothing is replaced in a text shorter than the pattern.
proof fn lemma_replace_short(s: Seq<char>, p: Seq<char>, x: Seq<char>)
    requires
        s.len() < p.len(),
    ensures
        replace_all(s, p, x) == s,
    decreases s.len(),
{
    if s.len() > 0 {
        lemma_replace_short(s.drop_first(), p, x);
        assert(seq![s[0]] + s.drop_first() =~= s);
    }
}

/// Replacing a pattern without `+` works piece by piece across a `+`.
proof fn lemma_replace_concat(a: Seq<char>, b: Seq<char>, p: Seq<char>, x: Seq<char>)
    requires
        p.len() > 0,
        !p.contains('+'),
        a.len() == 0 || a.last() == '+',
    ensures
        replace_all(a + b, p, x) == replace_all(a, p, x) + replace_all(b, p, x),
    decreases a.len(),
{
    if a.len() == 0 {
        assert(a + b =~= b);
        assert(seq![] + replace_all(b, p, x) =~= replace_all(b, p, x));
    } else {
        let s = a + b;
        if p.len() <= s.len() && s.take(p.len() as int) == p {
            if p.len() <= a.len() {
                assert(a.take(p.len() as int) =~= s.take(p.len() as int));
                assert(s.skip(p.len() as int) =~= a.skip(p.len() as int) + b);
                lemma_replace_concat(a.skip(p.len() as int), b, p, x);
                assert((x + replace_all(a.skip(p.len() as int), p, x)) + replace_all(b, p, x)
                    =~= x + (replace_all(a.skip(p.len() as int), p, x) + replace_all(b, p, x)));
            } else {
                assert(s.take(p.len() as int)[a.len() - 1] == '+');
                assert(p[a.len() - 1] == '+');
            }
        } else {
            if p.len() <= a.len() {
                assert(a.take(p.len() as int) =~= s.take(p.len() as int));
            }
            assert(s.drop_first() =~= a.drop_first() + b);
            lemma_replace_concat(a.drop_first(), b, p, x);
            assert(s[0] == a[0]);
            assert((seq![a[0]] + replace_all(a.drop_first(), p, x)) + replace_all(b, p, x)
                =~= seq![a[0]] + (replace_all(a.drop_first(), p, x) + replace_all(b, p, x)));
        }
    }
}

/// The ASCII lower case of a concatenation is that of its parts.
proof fn lemma_ascii_lower_concat(a: Seq<char>, b: Seq<char>)
    ensures
        ascii_lower(a + b) == ascii_lower(a) + ascii_lower(b),
{
    assert(ascii_lower(a + b) =~= ascii_lower(a) + ascii_lower(b));
}

/// A text already in ASCII lower case stays as it is.
proof fn lemma_ascii_lower_fixed(s: Seq<char>)
    requires
        forall|i: int| 0 <= i < s.len() ==> !('A' <= #[trigger] s[i] <= 'Z'),
    ensures
        ascii_lower(s) == s,
{
    assert(ascii_lower(s) =~= s);
}

/// Lowering twice is lowering once.
proof fn lemma_ascii_lower_twice(s: Seq<char>)
    ensures
        ascii_lower(ascii_lower(s)) == ascii_lower(s),
        is_ascii_text(s) ==> is_ascii_text(ascii_lower(s)),
{
    assert(ascii_lower(ascii_lower(s)) =~= ascii_lower(s));
}

/// A text that neither starts nor ends with white space trims to itself.
proof fn lemma_trim_plain(s: Seq<char>)
    requires
        s.len() > 0,
        !is_white_space(s[0]),
        !is_white_space(s.last()),
    ensures
        trim(s) == s,
{
    assert(trim_start(s) == s);
    assert(trim_end(s) == s);
}

/// Appending a text without `+` extends the last piece of a split.
proof fn lemma_split_append(a: Seq<char>, b: Seq<char>)
    requires
        !b.contains('+'),
    ensures
        split_on(a + b, '+') == split_on(a, '+').update(
            split_on(a, '+').len() - 1,
            split_on(a, '+').last() + b,
        ),
        split_on(a, '+').len() >= 1,
    decreases b.len(),
{
    lemma_split_nonempty(a);
    if b.len() == 0 {
        assert(a + b =~= a);
        assert(split_on(a, '+').last() + b =~= split_on(a, '+').last());
        assert(split_on(a, '+').update(split_on(a, '+').len() - 1, split_on(a, '+').last())
            =~= split_on(a, '+'));
    } else {
        lemma_split_append(a, b.drop_last());
        assert((a + b).drop_last() =~= a + b.drop_last());
        assert((a + b).last() == b.last());
        assert(b.last() != '+') by {
            if b.last() == '+' {
                assert(b[b.len() - 1] == '+');
            }
        }
        let front = split_on(a, '+');
        assert((front.last() + b.drop_last()).push(b.last()) =~= front.last() + b);
        assert(front.update(front.len() - 1, front.last() + b.drop_last()).update(
            front.len() - 1,
            front.last() + b,
        ) =~= front.update(front.len() - 1, front.last() + b));
    }
}

/// A split always has at least one piece.
proof fn lemma_split_nonempty(s: Seq<char>)
    ensures
        split_on(s, '+').len() >= 1,
    decreases s.len(),
{
    if s.len() > 0 {
        lemma_split_nonempty(s.drop_last());
    }
}

/// Splitting after a `+` opens an empty piece.
proof fn lemma_split_plus(a: Seq<char>)
    ensures
        split_on(a.push('+'), '+') == split_on(a, '+').push(Seq::<char>::empty()),
{
    assert(a.push('+').drop_last() =~= a);
}


// ---------------------------------------------------------------------------
// Key names
// ---------------------------------------------------------------------------

/// Whether every character of `s` is ASCII, and none is `+` or white space.
pub open spec fn plain_text(s: Seq<char>) -> bool
    decreases s.len(),
{
    s.len() == 0 || (s[0] <= '\u{7f}' && s[0] != '+' && !is_white_space(s[0]) && plain_text(
        s.drop_first(),
    ))
}

proof fn lemma_plain_text(s: Seq<char>)
    requires
        plain_text(s),
    ensures
        is_ascii_text(s),
        !s.contains('+'),
        forall|i: int| 0 <= i < s.len() ==> !is_white_space(#[trigger] s[i]),
    decreases s.len(),
{
    if s.len() > 0 {
        lemma_plain_text(s.drop_first());
        assert forall|i: int| 0 <= i < s.len() implies #[trigger] s[i] <= '\u{7f}'
            && !is_white_space(s[i]) && s[i] != '+' by {
            if i > 0 {
                assert(s[i] == s.drop_first()[i - 1]);
            }
        }
    }
}

/// The four replacements of `normalize` leave `s` as it is.
pub open spec fn normal_replacements_keep(s: Seq<char>) -> bool {
    &&& replace_all(s, "control"@, "ctrl"@) == s
    &&& replace_all(s, "command"@, "super"@) == s
    &&& replace_all(s, "meta"@, "super"@) == s
    &&& replace_all(s, "win"@, "super"@) == s
}

/// Whether no position of `s` starts with the first two characters of `p`
/// and leaves room for the rest of `p`.
pub open spec fn cannot_match(s: Seq<char>, p: Seq<char>) -> bool
    decreases s.len(),
{
    s.len() == 0 || (!(s.len() >= p.len() && s[0] == p[0] && s[1] == p[1]) && cannot_match(
        s.drop_first(),
        p,
    ))
}

/// Where `p` cannot match, replacing it changes nothing.
proof fn lemma_cannot_match_keeps(s: Seq<char>, p: Seq<char>, x: Seq<char>)
    requires
        p.len() >= 2,
        cannot_match(s, p),
    ensures
        replace_all(s, p, x) == s,
    decreases s.len(),
{
    if s.len() > 0 {
        if p.len() <= s.len() && s.take(p.len() as int) == p {
            assert(s[0] == s.take(p.len() as int)[0]);
            assert(s[1] == s.take(p.len() as int)[1]);
        }
        lemma_cannot_match_keeps(s.drop_first(), p, x);
        assert(seq![s[0]] + s.drop_first() =~= s);
    }
}

/// Whether `s` is one of the names that `apply_token` reads as a modifier.
pub open spec fn is_modifier_name(s: Seq<char>) -> bool {
    ||| s == "alt"@
    ||| s == "option"@
    ||| s == "ctrl"@
    ||| s == "control"@
    ||| s == "shift"@
    ||| s == "super"@
    ||| s == "command"@
    ||| s == "cmd"@
    ||| s == "meta"@
    ||| s == "win"@
}

/// What makes a key name read back as itself: the name is plain text, its
/// lower case is plain text that normalizing keeps and that is no modifier, and
/// reading that lower case as a main key gives the name again with its code.
pub open spec fn reads_back(vk: i32, name: Seq<char>) -> bool {
    &&& name.len() > 0
    &&& plain_text(name)
    &&& plain_text(ascii_lower(name))
    &&& normal_replacements_keep(ascii_lower(name))
    &&& !is_modifier_name(ascii_lower(name))
    &&& forall|h: Seq<char>| main_key(ascii_lower(name), h) == Ok::<(i32, Seq<char>), Seq<char>>((vk, name))
}

/// The lower-case names of the named keys.
pub open spec fn is_named_key_lower(l: Seq<char>) -> bool {
    ||| l == "intlbackslash"@
    ||| l == "space"@
    ||| l == "tab"@
    ||| l == "enter"@
    ||| l == "backspace"@
    ||| l == "delete"@
    ||| l == "insert"@
    ||| l == "home"@
    ||| l == "end"@
    ||| l == "pageup"@
    ||| l == "pagedown"@
    ||| l == "up"@
    ||| l == "down"@
    ||| l == "left"@
    ||| l == "right"@
    ||| l == "escape"@
    ||| l == "/"@
    ||| l == "\\"@
    ||| l == ";"@
    ||| l == "'"@
    ||| l == "["@
    ||| l == "]"@
    ||| l == "-"@
    ||| l == "="@
    ||| l == "`"@
    ||| l == ","@
    ||| l == "."@
}

/// The lower-case name of a named key is plain text, no modifier, and kept
/// by normalizing.
#[verifier::spinoff_prover]
proof fn lemma_named_lower_plain(l: Seq<char>)
    requires
        is_named_key_lower(l),
    ensures
        l.len() > 0,
        plain_text(l),
        normal_replacements_keep(l),
        !is_modifier_name(l),
{
    reveal_strlit("intlbackslash");
    reveal_strlit("space");
    reveal_strlit("tab");
    reveal_strlit("enter");
    reveal_strlit("backspace");
    reveal_strlit("delete");
    reveal_strlit("insert");
    reveal_strlit("home");
    reveal_strlit("end");
    reveal_strlit("pageup");
    reveal_strlit("pagedown");
    reveal_strlit("up");
    reveal_strlit("down");
    reveal_strlit("left");
    reveal_strlit("right");
    reveal_strlit("escape");
    reveal_strlit("/");
    reveal_strlit("\\");
    reveal_strlit(";");
    reveal_strlit("'");
    reveal_strlit("[");
    reveal_strlit("]");
    reveal_strlit("-");
    reveal_strlit("=");
    reveal_strlit("`");
    reveal_strlit(",");
    reveal_strlit(".");
    reveal_strlit("alt");
    reveal_strlit("option");
    reveal_strlit("ctrl");
    reveal_strlit("control");
    reveal_strlit("shift");
    reveal_strlit("super");
    reveal_strlit("command");
    reveal_strlit("cmd");
    reveal_strlit("meta");
    reveal_strlit("win");
    reveal_with_fuel(plain_text, 16);
    reveal_with_fuel(cannot_match, 16);
    lemma_cannot_match_keeps(l, "control"@, "ctrl"@);
    lemma_cannot_match_keeps(l, "command"@, "super"@);
    lemma_cannot_match_keeps(l, "meta"@, "super"@);
    lemma_cannot_match_keeps(l, "win"@, "super"@);
}

/// A named key's written name lowers to a lower-case named-key name, which
/// the alias table maps back to that key.
#[verifier::spinoff_prover]
proof fn lemma_named_key_lower(lower: Seq<char>)
    requires
        key_alias(lower) is Some,
    ensures
        is_named_key_lower(ascii_lower((key_alias(lower)->0).1)),
        key_alias(ascii_lower((key_alias(lower)->0).1)) == key_alias(lower),
        plain_text((key_alias(lower)->0).1),
{
    reveal_strlit("IntlBackslash");
    reveal_strlit("space");
    reveal_strlit("tab");
    reveal_strlit("enter");
    reveal_strlit("backspace");
    reveal_strlit("delete");
    reveal_strlit("insert");
    reveal_strlit("home");
    reveal_strlit("end");
    reveal_strlit("pageup");
    reveal_strlit("pagedown");
    reveal_strlit("up");
    reveal_strlit("down");
    reveal_strlit("left");
    reveal_strlit("right");
    reveal_strlit("escape");
    reveal_strlit("/");
    reveal_strlit("\\");
    reveal_strlit(";");
    reveal_strlit("'");
    reveal_strlit("[");
    reveal_strlit("]");
    reveal_strlit("-");
    reveal_strlit("=");
    reveal_strlit("`");
    reveal_strlit(",");
    reveal_strlit(".");
    reveal_strlit("intlbackslash");
    reveal_strlit("<");
    reveal_strlit(">");
    reveal_strlit("oem102");
    reveal_strlit("nonusbackslash");
    reveal_strlit("spacebar");
    reveal_strlit("esc");
    reveal_strlit("slash");
    reveal_strlit("backslash");
    reveal_strlit("semicolon");
    reveal_strlit("quote");
    reveal_strlit("bracketleft");
    reveal_strlit("bracketright");
    reveal_strlit("minus");
    reveal_strlit("equal");
    reveal_strlit("backquote");
    reveal_strlit("comma");
    reveal_strlit("period");
    reveal_with_fuel(plain_text, 16);
    let name = (key_alias(lower)->0).1;
    if name == "IntlBackslash"@ {
        assert(ascii_lower(name) =~= "intlbackslash"@);
        assert(key_alias("intlbackslash"@) == key_alias(lower));
    } else if name == "space"@ {
        assert(ascii_lower(name) =~= "space"@);
        assert(key_alias("space"@) == key_alias(lower));
    } else if name == "tab"@ {
        assert(ascii_lower(name) =~= "tab"@);
        assert(key_alias("tab"@) == key_alias(lower));
    } else if name == "enter"@ {
        assert(ascii_lower(name) =~= "enter"@);
        assert("enter"@[0] != "space"@[0]);
        assert(key_alias("enter"@) == key_alias(lower));
    } else if name == "backspace"@ {
        assert(ascii_lower(name) =~= "backspace"@);
        assert(key_alias("backspace"@) == key_alias(lower));
    } else if name == "delete"@ {
        assert(ascii_lower(name) =~= "delete"@);
        assert("delete"@[0] != "oem102"@[0]);
        assert(key_alias("delete"@) == key_alias(lower));
    } else if name == "insert"@ {
        assert(ascii_lower(name) =~= "insert"@);
        assert("insert"@[0] != "oem102"@[0]);
        assert("insert"@[0] != "delete"@[0]);
        assert(key_alias("insert"@) == key_alias(lower));
    } else if name == "home"@ {
        assert(ascii_lower(name) =~= "home"@);
        assert(key_alias("home"@) == key_alias(lower));
    } else if name == "end"@ {
        assert(ascii_lower(name) =~= "end"@);
        assert("end"@[0] != "tab"@[0]);
        assert(key_alias("end"@) == key_alias(lower));
    } else if name == "pageup"@ {
        assert(ascii_lower(name) =~= "pageup"@);
        assert("pageup"@[0] != "oem102"@[0]);
        assert("pageup"@[0] != "delete"@[0]);
        assert("pageup"@[0] != "insert"@[0]);
        assert(key_alias("pageup"@) == key_alias(lower));
    } else if name == "pagedown"@ {
        assert(ascii_lower(name) =~= "pagedown"@);
        assert("pagedown"@[0] != "spacebar"@[0]);
        assert(key_alias("pagedown"@) == key_alias(lower));
    } else if name == "up"@ {
        assert(ascii_lower(name) =~= "up"@);
        assert(key_alias("up"@) == key_alias(lower));
    } else if name == "down"@ {
        assert(ascii_lower(name) =~= "down"@);
        assert("down"@[0] != "home"@[0]);
        assert(key_alias("down"@) == key_alias(lower));
    } else if name == "left"@ {
        assert(ascii_lower(name) =~= "left"@);
        assert("left"@[0] != "home"@[0]);
        assert("left"@[0] != "down"@[0]);
        assert(key_alias("left"@) == key_alias(lower));
    } else if name == "right"@ {
        assert(ascii_lower(name) =~= "right"@);
        assert("right"@[0] != "space"@[0]);
        assert("right"@[0] != "enter"@[0]);
        assert(key_alias("right"@) == key_alias(lower));
    } else if name == "escape"@ {
        assert(ascii_lower(name) =~= "escape"@);
        assert("escape"@[0] != "oem102"@[0]);
        assert("escape"@[0] != "delete"@[0]);
        assert("escape"@[0] != "insert"@[0]);
        assert("escape"@[0] != "pageup"@[0]);
        assert(key_alias("escape"@) == key_alias(lower));
    } else if name == "/"@ {
        assert(ascii_lower(name) =~= "/"@);
        assert("/"@[0] != "<"@[0]);
        assert("/"@[0] != ">"@[0]);
        assert(key_alias("/"@) == key_alias(lower));
    } else if name == "\\"@ {
        assert(ascii_lower(name) =~= "\\"@);
        assert("\\"@[0] != "<"@[0]);
        assert("\\"@[0] != ">"@[0]);
        assert("\\"@[0] != "/"@[0]);
        assert(key_alias("\\"@) == key_alias(lower));
    } else if name == ";"@ {
        assert(ascii_lower(name) =~= ";"@);
        assert(";"@[0] != "<"@[0]);
        assert(";"@[0] != ">"@[0]);
        assert(";"@[0] != "/"@[0]);
        assert(";"@[0] != "\\"@[0]);
        assert(key_alias(";"@) == key_alias(lower));
    } else if name == "'"@ {
        assert(ascii_lower(name) =~= "'"@);
        assert("'"@[0] != "<"@[0]);
        assert("'"@[0] != ">"@[0]);
        assert("'"@[0] != "/"@[0]);
        assert("'"@[0] != "\\"@[0]);
        assert("'"@[0] != ";"@[0]);
        assert(key_alias("'"@) == key_alias(lower));
    } else if name == "["@ {
        assert(ascii_lower(name) =~= "["@);
        assert("["@[0] != "<"@[0]);
        assert("["@[0] != ">"@[0]);
        assert("["@[0] != "/"@[0]);
        assert("["@[0] != "\\"@[0]);
        assert("["@[0] != ";"@[0]);
        assert("["@[0] != "'"@[0]);
        assert(key_alias("["@) == key_alias(lower));
    } else if name == "]"@ {
        assert(ascii_lower(name) =~= "]"@);
        assert("]"@[0] != "<"@[0]);
        assert("]"@[0] != ">"@[0]);
        assert("]"@[0] != "/"@[0]);
        assert("]"@[0] != "\\"@[0]);
        assert("]"@[0] != ";"@[0]);
        assert("]"@[0] != "'"@[0]);
        assert("]"@[0] != "["@[0]);
        assert(key_alias("]"@) == key_alias(lower));
    } else if name == "-"@ {
        assert(ascii_lower(name) =~= "-"@);
        assert("-"@[0] != "<"@[0]);
        assert("-"@[0] != ">"@[0]);
        assert("-"@[0] != "/"@[0]);
        assert("-"@[0] != "\\"@[0]);
        assert("-"@[0] != ";"@[0]);
        assert("-"@[0] != "'"@[0]);
        assert("-"@[0] != "["@[0]);
        assert("-"@[0] != "]"@[0]);
        assert(key_alias("-"@) == key_alias(lower));
    } else if name == "="@ {
        assert(ascii_lower(name) =~= "="@);
        assert("="@[0] != "<"@[0]);
        assert("="@[0] != ">"@[0]);
        assert("="@[0] != "/"@[0]);
        assert("="@[0] != "\\"@[0]);
        assert("="@[0] != ";"@[0]);
        assert("="@[0] != "'"@[0]);
        assert("="@[0] != "["@[0]);
        assert("="@[0] != "]"@[0]);
        assert("="@[0] != "-"@[0]);
        assert(key_alias("="@) == key_alias(lower));
    } else if name == "`"@ {
        assert(ascii_lower(name) =~= "`"@);
        assert("`"@[0] != "<"@[0]);
        assert("`"@[0] != ">"@[0]);
        assert("`"@[0] != "/"@[0]);
        assert("`"@[0] != "\\"@[0]);
        assert("`"@[0] != ";"@[0]);
        assert("`"@[0] != "'"@[0]);
        assert("`"@[0] != "["@[0]);
        assert("`"@[0] != "]"@[0]);
        assert("`"@[0] != "-"@[0]);
        assert("`"@[0] != "="@[0]);
        assert(key_alias("`"@) == key_alias(lower));
    } else if name == ","@ {
        assert(ascii_lower(name) =~= ","@);
        assert(","@[0] != "<"@[0]);
        assert(","@[0] != ">"@[0]);
        assert(","@[0] != "/"@[0]);
        assert(","@[0] != "\\"@[0]);
        assert(","@[0] != ";"@[0]);
        assert(","@[0] != "'"@[0]);
        assert(","@[0] != "["@[0]);
        assert(","@[0] != "]"@[0]);
        assert(","@[0] != "-"@[0]);
        assert(","@[0] != "="@[0]);
        assert(","@[0] != "`"@[0]);
        assert(key_alias(","@) == key_alias(lower));
    } else if name == "."@ {
        assert(ascii_lower(name) =~= "."@);
        assert("."@[0] != "<"@[0]);
        assert("."@[0] != ">"@[0]);
        assert("."@[0] != "/"@[0]);
        assert("."@[0] != "\\"@[0]);
        assert("."@[0] != ";"@[0]);
        assert("."@[0] != "'"@[0]);
        assert("."@[0] != "["@[0]);
        assert("."@[0] != "]"@[0]);
        assert("."@[0] != "-"@[0]);
        assert("."@[0] != "="@[0]);
        assert("."@[0] != "`"@[0]);
        assert("."@[0] != ","@[0]);
        assert(key_alias("."@) == key_alias(lower));
    }
}

/// Each named key reads back as itself.
proof fn lemma_named_key_reads_back(lower: Seq<char>)
    requires
        key_alias(lower) is Some,
    ensures
        reads_back((key_alias(lower)->0).0, (key_alias(lower)->0).1),
{
    let (vk, name) = key_alias(lower)->0;
    let l = ascii_lower(name);
    lemma_named_key_lower(lower);
    lemma_named_lower_plain(l);
    lemma_plain_text(l);
    lemma_trim_plain(l);
    lemma_ascii_lower_twice(name);
    assert forall|h: Seq<char>| main_key(l, h) == Ok::<(i32, Seq<char>), Seq<char>>((vk, name)) by {
        assert(lowercase(trim(l)) == l);
    }
}

/// The digits of a number are plain lower-case text.
proof fn lemma_digits_plain(s: Seq<char>)
    requires
        forall|k: int| 0 <= k < s.len() ==> crate::text::is_digit(#[trigger] s[k]),
    ensures
        plain_text(s),
    decreases s.len(),
{
    if s.len() > 0 {
        assert forall|k: int| 0 <= k < s.drop_first().len() implies crate::text::is_digit(
            #[trigger] s.drop_first()[k],
        ) by {
            assert(s.drop_first()[k] == s[k + 1]);
        }
        lemma_digits_plain(s.drop_first());
        assert(crate::text::is_digit(s[0]));
    }
}

/// The key names that the parser gives back with their codes: a named key,
/// a function key, or a single letter or digit.
pub open spec fn is_key_name(vk: i32, name: Seq<char>) -> bool {
    ||| exists|lower: Seq<char>| key_alias(lower) == Some((vk, name))
    ||| key_alias(name) is None && function_key(name) == Some(vk)
    ||| key_alias(name) is None && function_key(name) is None && single_char_key(name) == Some(vk)
}

/// A function key name without `+` reads back as itself.
proof fn lemma_function_key_reads_back(vk: i32, name: Seq<char>)
    requires
        key_alias(name) is None,
        function_key(name) == Some(vk),
        !name.contains('+'),
    ensures
        reads_back(vk, name),
{
    reveal_strlit("alt");
    reveal_strlit("option");
    reveal_strlit("ctrl");
    reveal_strlit("control");
    reveal_strlit("shift");
    reveal_strlit("super");
    reveal_strlit("command");
    reveal_strlit("cmd");
    reveal_strlit("meta");
    reveal_strlit("win");
    let rest = name.drop_first();
    let n = parse_i32(rest)->0;
    assert(crate::text::decimal_value(rest) is Some);
    assert(rest.len() > 0);
    if rest[0] == '+' {
        assert(name[1] == '+');
    }
    if rest[0] == '-' {
        crate::text::lemma_digits_value_grows(rest.drop_first(), 0);
    }
    assert(crate::text::all_digits(rest));
    lemma_digits_plain(rest);
    crate::text::lemma_utf8_len_one(name);
    lemma_utf8_len_at_least_len(name);
    assert(name.len() <= 3);
    assert(name =~= seq![name[0]] + rest);
    reveal_with_fuel(plain_text, 2);
    assert(plain_text(name));
    lemma_plain_text(name);
    assert(ascii_lower(name) == name) by {
        assert forall|i: int| 0 <= i < name.len() implies !('A' <= #[trigger] name[i] <= 'Z') by {
            if i > 0 {
                assert(name[i] == rest[i - 1]);
            }
        }
        lemma_ascii_lower_fixed(name);
    }
    lemma_replace_short(name, "control"@, "ctrl"@);
    lemma_replace_short(name, "command"@, "super"@);
    lemma_replace_short(name, "meta"@, "super"@);
    reveal_with_fuel(cannot_match, 4);
    assert(cannot_match(name, "win"@)) by {
        assert(rest[0] != 'w');
        if name.len() == 3 {
            assert(rest[1] != 'w');
        }
    }
    lemma_cannot_match_keeps(name, "win"@, "super"@);
    assert(!is_modifier_name(name));
    lemma_trim_plain(name);
    assert forall|h: Seq<char>| main_key(name, h) == Ok::<(i32, Seq<char>), Seq<char>>((vk, name)) by {
        assert(lowercase(trim(name)) == name);
    }
}

/// Every character takes at least one byte.
proof fn lemma_utf8_len_at_least_len(s: Seq<char>)
    ensures
        s.len() <= crate::text::utf8_len(s),
{
    crate::text::lemma_utf8_len_one(s);
}

/// A single letter or digit reads back as itself.
proof fn lemma_single_key_reads_back(vk: i32, name: Seq<char>)
    requires
        key_alias(name) is None,
        function_key(name) is None,
        single_char_key(name) == Some(vk),
    ensures
        reads_back(vk, name),
{
    reveal_strlit("alt");
    reveal_strlit("option");
    reveal_strlit("ctrl");
    reveal_strlit("control");
    reveal_strlit("shift");
    reveal_strlit("super");
    reveal_strlit("command");
    reveal_strlit("cmd");
    reveal_strlit("meta");
    reveal_strlit("win");
    reveal_strlit("key");
    reveal_strlit("digit");
    crate::text::lemma_utf8_len_one(name);
    reveal_with_fuel(plain_text, 2);
    assert(plain_text(name));
    lemma_plain_text(name);
    assert(ascii_lower(name) == name) by {
        lemma_ascii_lower_fixed(name);
    }
    lemma_replace_short(name, "control"@, "ctrl"@);
    lemma_replace_short(name, "command"@, "super"@);
    lemma_replace_short(name, "meta"@, "super"@);
    lemma_replace_short(name, "win"@, "super"@);
    assert(!is_modifier_name(name));
    lemma_trim_plain(name);
    assert forall|h: Seq<char>| main_key(name, h) == Ok::<(i32, Seq<char>), Seq<char>>((vk, name)) by {
        assert(lowercase(trim(name)) == name);
        assert(prefixed_key(name, "key"@) is None);
        assert(prefixed_key(name, "digit"@) is None);
    }
}

/// Every key name without `+` reads back as itself.
proof fn lemma_key_name_reads_back(vk: i32, name: Seq<char>)
    requires
        is_key_name(vk, name),
        !name.contains('+'),
    ensures
        reads_back(vk, name),
{
    if exists|lower: Seq<char>| key_alias(lower) == Some((vk, name)) {
        let lower = choose|lower: Seq<char>| key_alias(lower) == Some((vk, name));
        lemma_named_key_reads_back(lower);
    } else if key_alias(name) is None && function_key(name) == Some(vk) {
        lemma_function_key_reads_back(vk, name);
    } else {
        lemma_single_key_reads_back(vk, name);
    }
}

/// What the main-key parse gives back is a key name.
proof fn lemma_main_key_is_key_name(token: Seq<char>, original: Seq<char>)
    requires
        main_key(token, original) is Ok,
    ensures
        is_key_name((main_key(token, original)->Ok_0).0, (main_key(token, original)->Ok_0).1),
    decreases crate::hotkeys::main_key_measure(token),
{
    reveal_strlit("key");
    reveal_strlit("digit");
    let lower = lowercase(trim(token));
    if key_alias(lower) is Some {
        assert(key_alias(lower) == Some(main_key(token, original)->Ok_0));
    } else if function_key(lower) is Some {
    } else if prefixed_key(lower, "key"@) is Some {
        let rest = prefixed_key(lower, "key"@)->0;
        if crate::hotkeys::is_single_ascii(token) {
            crate::hotkeys::lemma_single_ascii_not_prefixed(token, "key"@);
        }
        crate::text::lemma_utf8_len_one(rest);
        lemma_main_key_is_key_name(rest, original);
    } else if prefixed_key(lower, "digit"@) is Some {
        let rest = prefixed_key(lower, "digit"@)->0;
        if crate::hotkeys::is_single_ascii(token) {
            crate::hotkeys::lemma_single_ascii_not_prefixed(token, "digit"@);
        }
        crate::text::lemma_utf8_len_one(rest);
        lemma_main_key_is_key_name(rest, original);
    } else {
    }
}


// ---------------------------------------------------------------------------
// The written form of a binding
// ---------------------------------------------------------------------------

/// The modifier names of a binding, in written order.
pub open spec fn modifier_words(b: BindingView) -> Seq<Seq<char>> {
    let w1 = if b.ctrl {
        seq!["ctrl"@]
    } else {
        Seq::<Seq<char>>::empty()
    };
    let w2 = if b.alt {
        w1.push("alt"@)
    } else {
        w1
    };
    let w3 = if b.shift {
        w2.push("shift"@)
    } else {
        w2
    };
    if b.super_key {
        w3.push("super"@)
    } else {
        w3
    }
}

/// The words, each followed by `+`.
pub open spec fn plus_terminated(words: Seq<Seq<char>>) -> Seq<char>
    decreases words.len(),
{
    if words.len() == 0 {
        Seq::empty()
    } else {
        plus_terminated(words.drop_last()) + words.last().push('+')
    }
}

proof fn lemma_plus_terminated_push(words: Seq<Seq<char>>, w: Seq<char>)
    ensures
        plus_terminated(words.push(w)) == plus_terminated(words) + w.push('+'),
{
    assert(words.push(w).drop_last() =~= words);
}

/// A modifier word as the written form uses it: plain lower-case text that
/// normalizing keeps, also with a `+` after it.
pub open spec fn modifier_word_ok(w: Seq<char>) -> bool {
    &&& w.len() > 0
    &&& plain_text(w)
    &&& ascii_lower(w) == w
    &&& normal_replacements_keep(w.push('+'))
}

proof fn lemma_modifier_words_ok(b: BindingView)
    ensures
        forall|i: int|
            0 <= i < modifier_words(b).len() ==> modifier_word_ok(#[trigger] modifier_words(b)[i]),
{
    reveal_strlit("ctrl");
    reveal_strlit("alt");
    reveal_strlit("shift");
    reveal_strlit("super");
    reveal_strlit("control");
    reveal_strlit("command");
    reveal_strlit("meta");
    reveal_strlit("win");
    reveal_with_fuel(plain_text, 7);
    reveal_with_fuel(cannot_match, 8);
    assert(ascii_lower("ctrl"@) =~= "ctrl"@);
    assert(ascii_lower("alt"@) =~= "alt"@);
    assert(ascii_lower("shift"@) =~= "shift"@);
    assert(ascii_lower("super"@) =~= "super"@);
    lemma_word_keeps("ctrl"@.push('+'));
    lemma_word_keeps("alt"@.push('+'));
    lemma_word_keeps("shift"@.push('+'));
    lemma_word_keeps("super"@.push('+'));
    assert(modifier_word_ok("ctrl"@));
    assert(modifier_word_ok("alt"@));
    assert(modifier_word_ok("shift"@));
    assert(modifier_word_ok("super"@));
}

proof fn lemma_word_keeps(s: Seq<char>)
    requires
        cannot_match(s, "control"@),
        cannot_match(s, "command"@),
        cannot_match(s, "meta"@),
        cannot_match(s, "win"@),
    ensures
        normal_replacements_keep(s),
{
    reveal_strlit("control");
    reveal_strlit("command");
    reveal_strlit("meta");
    reveal_strlit("win");
    lemma_cannot_match_keeps(s, "control"@, "ctrl"@);
    lemma_cannot_match_keeps(s, "command"@, "super"@);
    lemma_cannot_match_keeps(s, "meta"@, "super"@);
    lemma_cannot_match_keeps(s, "win"@, "super"@);
}

/// The written form is the modifier words, each followed by `+`, then the key name.
proof fn lemma_format_shape(b: BindingView)
    ensures
        format_binding(b) == plus_terminated(modifier_words(b)) + b.key_token,
{
    reveal_strlit("ctrl");
    reveal_strlit("alt");
    reveal_strlit("shift");
    reveal_strlit("super");
    reveal_strlit("ctrl+");
    reveal_strlit("alt+");
    reveal_strlit("shift+");
    reveal_strlit("super+");
    let e = Seq::<Seq<char>>::empty();
    let w1 = if b.ctrl { seq!["ctrl"@] } else { e };
    let w2 = if b.alt { w1.push("alt"@) } else { w1 };
    let w3 = if b.shift { w2.push("shift"@) } else { w2 };
    let w4 = if b.super_key { w3.push("super"@) } else { w3 };
    let c = if b.ctrl { "ctrl+"@ } else { Seq::<char>::empty() };
    let a = if b.alt { "alt+"@ } else { Seq::<char>::empty() };
    let sh = if b.shift { "shift+"@ } else { Seq::<char>::empty() };
    let su = if b.super_key { "super+"@ } else { Seq::<char>::empty() };
    assert(plus_terminated(e) == Seq::<char>::empty());
    assert(plus_terminated(w1) =~= c) by {
        if b.ctrl {
            lemma_plus_terminated_push(e, "ctrl"@);
            assert(e.push("ctrl"@) =~= w1);
        }
    }
    assert(plus_terminated(w2) =~= c + a) by {
        if b.alt {
            lemma_plus_terminated_push(w1, "alt"@);
        }
    }
    assert(plus_terminated(w3) =~= c + a + sh) by {
        if b.shift {
            lemma_plus_terminated_push(w2, "shift"@);
        }
    }
    assert(plus_terminated(w4) =~= c + a + sh + su) by {
        if b.super_key {
            lemma_plus_terminated_push(w3, "super"@);
        }
    }
    assert(format_binding(b) =~= c + a + sh + su + b.key_token);
}

/// Splitting the words, each followed by `+`, then a last piece, gives the
/// words and the last piece.
proof fn lemma_split_terminated(words: Seq<Seq<char>>, last: Seq<char>)
    requires
        forall|i: int| 0 <= i < words.len() ==> !(#[trigger] words[i]).contains('+'),
        !last.contains('+'),
    ensures
        split_on(plus_terminated(words) + last, '+') == words.push(last),
    decreases words.len(),
{
    if words.len() == 0 {
        lemma_split_append(Seq::<char>::empty(), last);
        assert(Seq::<char>::empty() + last =~= last);
        assert(plus_terminated(words) + last =~= last);
        assert(split_on(Seq::<char>::empty(), '+') =~= seq![Seq::<char>::empty()]);
        assert(Seq::<char>::empty() + last =~= last);
        assert(seq![Seq::<char>::empty()].update(0, last) =~= words.push(last));
    } else {
        let front = words.drop_last();
        let w = words.last();
        assert(!w.contains('+'));
        lemma_split_terminated(front, Seq::<char>::empty());
        let x = plus_terminated(front) + w;
        lemma_split_append(plus_terminated(front), w);
        assert(plus_terminated(front) + Seq::<char>::empty() =~= plus_terminated(front));
        assert(split_on(x, '+') =~= front.push(w)) by {
            assert(front.push(Seq::<char>::empty()).last() + w =~= w);
        }
        lemma_split_plus(x);
        lemma_split_append(x.push('+'), last);
        assert(plus_terminated(words) + last =~= x.push('+') + last);
        assert(Seq::<char>::empty() + last =~= last);
        assert(front.push(w).push(Seq::<char>::empty()).update(front.len() + 1int, last) =~= words.push(last));
    }
}

/// Lower case, and each replacement of `normalize`, leave the words followed
/// by `+` as they are.
proof fn lemma_terminated_normal(words: Seq<Seq<char>>)
    requires
        forall|i: int| 0 <= i < words.len() ==> modifier_word_ok(#[trigger] words[i]),
    ensures
        ascii_lower(plus_terminated(words)) == plus_terminated(words),
        normal_replacements_keep(plus_terminated(words)),
        plus_terminated(words).len() == 0 || plus_terminated(words).last() == '+',
        is_ascii_text(plus_terminated(words)),
        forall|i: int| 0 <= i < plus_terminated(words).len() ==> !is_white_space(
            #[trigger] plus_terminated(words)[i],
        ),
    decreases words.len(),
{
    reveal_strlit("control");
    reveal_strlit("command");
    reveal_strlit("meta");
    reveal_strlit("win");
    if words.len() == 0 {
        assert(ascii_lower(Seq::<char>::empty()) =~= Seq::<char>::empty());
        assert(normal_replacements_keep(Seq::<char>::empty()));
    } else {
        let front = words.drop_last();
        let w = words.last();
        assert(modifier_word_ok(w));
        lemma_terminated_normal(front);
        let p = plus_terminated(front);
        let t = w.push('+');
        assert(plus_terminated(words) == p + t);
        lemma_ascii_lower_concat(p, t);
        lemma_ascii_lower_concat(w, seq!['+']);
        assert(t =~= w + seq!['+']);
        assert(ascii_lower(seq!['+']) =~= seq!['+']);
        lemma_replace_concat(p, t, "control"@, "ctrl"@);
        lemma_replace_concat(p, t, "command"@, "super"@);
        lemma_replace_concat(p, t, "meta"@, "super"@);
        lemma_replace_concat(p, t, "win"@, "super"@);
        lemma_plain_text(w);
        assert forall|i: int| 0 <= i < (p + t).len() implies #[trigger] (p + t)[i] <= '\u{7f}'
            && !is_white_space((p + t)[i]) by {
            if i >= p.len() && i < p.len() + w.len() {
                assert((p + t)[i] == w[i - p.len()]);
            }
        }
    }
}


proof fn lemma_apply_tokens_push(tokens: Seq<Seq<char>>, t: Seq<char>, hotkey: Seq<char>)
    ensures
        apply_tokens(tokens.push(t), hotkey) == match apply_tokens(tokens, hotkey) {
            Err(e) => Err(e),
            Ok(st) => apply_token(st, t, hotkey),
        },
{
    assert(tokens.push(t).drop_last() =~= tokens);
}

/// Reading the modifier words of a binding sets exactly its modifiers.
proof fn lemma_apply_modifier_words(b: BindingView, hotkey: Seq<char>)
    ensures
        apply_tokens(modifier_words(b), hotkey) == Ok::<ParseState, Seq<char>>(
            ParseState {
                ctrl: b.ctrl,
                alt: b.alt,
                shift: b.shift,
                super_key: b.super_key,
                main_key: None,
            },
        ),
{
    reveal_strlit("alt");
    reveal_strlit("option");
    reveal_strlit("ctrl");
    reveal_strlit("control");
    reveal_strlit("shift");
    reveal_strlit("super");
    let e = Seq::<Seq<char>>::empty();
    let w1 = if b.ctrl { seq!["ctrl"@] } else { e };
    let w2 = if b.alt { w1.push("alt"@) } else { w1 };
    let w3 = if b.shift { w2.push("shift"@) } else { w2 };
    if b.ctrl {
        assert(e.push("ctrl"@) =~= w1);
        lemma_apply_tokens_push(e, "ctrl"@, hotkey);
    }
    if b.alt {
        lemma_apply_tokens_push(w1, "alt"@, hotkey);
    }
    if b.shift {
        lemma_apply_tokens_push(w2, "shift"@, hotkey);
    }
    if b.super_key {
        lemma_apply_tokens_push(w3, "super"@, hotkey);
    }
}

/// Writing a binding and reading the written form gives the same binding, for
/// every binding whose main key is one that the parser gives back for some
/// token, and whose key name holds no `+`. (A key name with `+` can come
/// back from `parse_hotkey_main_key` for the token `f+1`; its written form
/// splits into two keys and does not read back.)
pub proof fn lemma_format_then_parse(b: BindingView, token: Seq<char>, original: Seq<char>)
    requires
        main_key(token, original) == Ok::<(i32, Seq<char>), Seq<char>>((b.main_vk, b.key_token)),
        !b.key_token.contains('+'),
    ensures
        parse_binding(format_binding(b)) == Ok::<BindingView, Seq<char>>(b),
{
    reveal_strlit("control");
    reveal_strlit("command");
    reveal_strlit("meta");
    reveal_strlit("win");
    lemma_main_key_is_key_name(token, original);
    lemma_key_name_reads_back(b.main_vk, b.key_token);
    let name = b.key_token;
    let l = ascii_lower(name);
    let words = modifier_words(b);
    lemma_modifier_words_ok(b);
    lemma_terminated_normal(words);
    lemma_format_shape(b);
    let p = plus_terminated(words);
    let f = format_binding(b);
    assert(f == p + name);
    lemma_plain_text(name);
    lemma_plain_text(l);
    // The written form has no white space and is ASCII, so it trims to itself
    // and lowers character by character.
    assert forall|i: int| 0 <= i < f.len() implies #[trigger] f[i] <= '\u{7f}' && !is_white_space(
        f[i],
    ) by {
        if i >= p.len() {
            assert(f[i] == name[i - p.len()]);
        } else {
            assert(f[i] == p[i]);
        }
    }
    lemma_trim_plain(f);
    lemma_ascii_lower_concat(p, name);
    assert(lowercase(trim(f)) == p + l);
    // The replacements work on the words and on the key name apart.
    lemma_replace_concat(p, l, "control"@, "ctrl"@);
    lemma_replace_concat(p, l, "command"@, "super"@);
    lemma_replace_concat(p, l, "meta"@, "super"@);
    lemma_replace_concat(p, l, "win"@, "super"@);
    assert(normalize(f) == p + l);
    // Splitting gives back the words and the key name.
    assert forall|i: int| 0 <= i < words.len() implies !(#[trigger] words[i]).contains('+') by {
        lemma_plain_text(words[i]);
    }
    lemma_split_terminated(words, l);
    assert(hotkey_tokens(f) =~= words.push(l)) by {
        assert forall|i: int| 0 <= i < words.push(l).len() implies trim(
            #[trigger] words.push(l)[i],
        ) == words.push(l)[i] by {
            let w = words.push(l)[i];
            if i < words.len() {
                assert(w == words[i]);
                lemma_plain_text(w);
            }
            lemma_trim_plain(w);
        }
    }
    // Reading the tokens sets the modifiers, then the main key.
    lemma_apply_modifier_words(b, f);
    lemma_apply_tokens_push(words, l, f);
    assert(main_key(l, f) == Ok::<(i32, Seq<char>), Seq<char>>((b.main_vk, name)));
    assert(parse_binding(f) =~~= Ok::<BindingView, Seq<char>>(b));
}


/// A parsed binding, written and read again, is the same binding, where its
/// key name holds no `+`: the written form that registering a hotkey gives
/// back registers the same hotkey.
pub proof fn lemma_parse_format_parse(hotkey: Seq<char>)
    requires
        parse_binding(hotkey) is Ok,
        !(parse_binding(hotkey)->Ok_0).key_token.contains('+'),
    ensures
        parse_binding(format_binding(parse_binding(hotkey)->Ok_0)) == parse_binding(hotkey),
{
    let tokens = hotkey_tokens(hotkey);
    lemma_main_key_from_token(tokens, hotkey);
    let b = parse_binding(hotkey)->Ok_0;
    let i = choose|i: int|
        0 <= i < tokens.len() && main_key(#[trigger] tokens[i], hotkey) == Ok::<
            (i32, Seq<char>),
            Seq<char>,
        >((apply_tokens(tokens, hotkey)->Ok_0).main_key->0);
    lemma_format_then_parse(b, tokens[i], hotkey);
}


// ---------------------------------------------------------------------------
// Only the normal form counts
// ---------------------------------------------------------------------------

/// The main-key parse succeeds, and with what, whatever hotkey is quoted in
/// its errors.
proof fn lemma_main_key_original(token: Seq<char>, o1: Seq<char>, o2: Seq<char>)
    ensures
        main_key(token, o1) is Ok <==> main_key(token, o2) is Ok,
        main_key(token, o1) is Ok ==> main_key(token, o1) == main_key(token, o2),
    decreases crate::hotkeys::main_key_measure(token),
{
    reveal_strlit("key");
    reveal_strlit("digit");
    let lower = lowercase(trim(token));
    if key_alias(lower) is Some {
    } else if function_key(lower) is Some {
    } else if prefixed_key(lower, "key"@) is Some {
        let rest = prefixed_key(lower, "key"@)->0;
        if crate::hotkeys::is_single_ascii(token) {
            crate::hotkeys::lemma_single_ascii_not_prefixed(token, "key"@);
        }
        crate::text::lemma_utf8_len_one(rest);
        lemma_main_key_original(rest, o1, o2);
    } else if prefixed_key(lower, "digit"@) is Some {
        let rest = prefixed_key(lower, "digit"@)->0;
        if crate::hotkeys::is_single_ascii(token) {
            crate::hotkeys::lemma_single_ascii_not_prefixed(token, "digit"@);
        }
        crate::text::lemma_utf8_len_one(rest);
        lemma_main_key_original(rest, o1, o2);
    } else {
    }
}

/// Reading tokens succeeds, and with what, whatever hotkey is quoted in the
/// errors.
proof fn lemma_apply_tokens_original(tokens: Seq<Seq<char>>, h1: Seq<char>, h2: Seq<char>)
    ensures
        apply_tokens(tokens, h1) is Ok <==> apply_tokens(tokens, h2) is Ok,
        apply_tokens(tokens, h1) is Ok ==> apply_tokens(tokens, h1) == apply_tokens(tokens, h2),
    decreases tokens.len(),
{
    if tokens.len() > 0 {
        lemma_apply_tokens_original(tokens.drop_last(), h1, h2);
        lemma_main_key_original(tokens.last(), h1, h2);
    }
}

/// Two hotkey strings with the same normal form parse alike: one parses
/// exactly when the other does, to the same binding. So case, surrounding
/// white space, and the spellings `control`, `command`, `meta` and `win` make
/// no difference to a binding.
pub proof fn lemma_parse_depends_on_normal_form(h1: Seq<char>, h2: Seq<char>)
    requires
        normalize(h1) == normalize(h2),
    ensures
        parse_binding(h1) is Ok <==> parse_binding(h2) is Ok,
        parse_binding(h1) is Ok ==> parse_binding(h1) == parse_binding(h2),
{
    assert(hotkey_tokens(h1) == hotkey_tokens(h2));
    lemma_apply_tokens_original(hotkey_tokens(h1), h1, h2);
}

// ---------------------------------------------------------------------------
// Every parsed key can be seen held
// ---------------------------------------------------------------------------

/// Every main key that the parser accepts stands for a physical key, and so
/// can be seen held, except the function keys F21 to F24 and the key left of
/// Z (`IntlBackslash`), which have none.
pub proof fn lemma_parsed_key_has_keycode(token: Seq<char>, original: Seq<char>)
    requires
        main_key(token, original) is Ok,
        !(0x84 <= (main_key(token, original)->Ok_0).0 <= 0x87),
        (main_key(token, original)->Ok_0).0 != crate::keys::VK_OEM_102 as i32,
    ensures
        crate::keys::vk_keycodes((main_key(token, original)->Ok_0).0 as u16).len() > 0,
{
    lemma_main_key_is_key_name(token, original);
    let (vk, name) = main_key(token, original)->Ok_0;
    if exists|lower: Seq<char>| key_alias(lower) == Some((vk, name)) {
        let lower = choose|lower: Seq<char>| key_alias(lower) == Some((vk, name));
        assert(key_alias(lower) == Some((vk, name)));
    } else if key_alias(name) is None && function_key(name) == Some(vk) {
        assert(0x70 <= vk <= 0x87);
    } else {
        crate::text::lemma_utf8_len_one(name);
    }
}


// ---------------------------------------------------------------------------
// ASCII hotkeys
// ---------------------------------------------------------------------------

/// ASCII text without `+`.
pub open spec fn ascii_without_plus(s: Seq<char>) -> bool {
    is_ascii_text(s) && !s.contains('+')
}

proof fn lemma_subrange_keeps(s: Seq<char>, i: int, j: int)
    requires
        0 <= i <= j <= s.len(),
    ensures
        is_ascii_text(s) ==> is_ascii_text(s.subrange(i, j)),
        !s.contains('+') ==> !s.subrange(i, j).contains('+'),
{
    if s.subrange(i, j).contains('+') {
        let k = choose|k: int| 0 <= k < s.subrange(i, j).len() && s.subrange(i, j)[k] == '+';
        assert(s[i + k] == '+');
    }
    if is_ascii_text(s) {
        assert forall|k: int| 0 <= k < s.subrange(i, j).len() implies #[trigger] s.subrange(
            i,
            j,
        )[k] <= '\u{7f}' by {
            assert(s.subrange(i, j)[k] == s[i + k]);
        }
    }
}

proof fn lemma_trim_start_is_suffix(s: Seq<char>)
    ensures
        exists|k: int| 0 <= k <= s.len() && trim_start(s) == s.subrange(k, s.len() as int),
    decreases s.len(),
{
    if s.len() > 0 && is_white_space(s[0]) {
        lemma_trim_start_is_suffix(s.drop_first());
        let k = choose|k: int|
            0 <= k <= s.drop_first().len() && trim_start(s.drop_first()) == s.drop_first().subrange(
                k,
                s.drop_first().len() as int,
            );
        assert(s.drop_first().subrange(k, s.drop_first().len() as int) =~= s.subrange(
            k + 1,
            s.len() as int,
        ));
    } else {
        assert(s.subrange(0, s.len() as int) =~= s);
    }
}

proof fn lemma_trim_end_is_prefix(s: Seq<char>)
    ensures
        exists|k: int| 0 <= k <= s.len() && trim_end(s) == s.subrange(0, k),
    decreases s.len(),
{
    if s.len() > 0 && is_white_space(s.last()) {
        lemma_trim_end_is_prefix(s.drop_last());
        let k = choose|k: int|
            0 <= k <= s.drop_last().len() && trim_end(s.drop_last()) == s.drop_last().subrange(0, k);
        assert(s.drop_last().subrange(0, k) =~= s.subrange(0, k));
    } else {
        assert(s.subrange(0, s.len() as int) =~= s);
    }
}

/// Trimming keeps text ASCII and free of `+`.
proof fn lemma_trim_keeps(s: Seq<char>)
    ensures
        is_ascii_text(s) ==> is_ascii_text(trim(s)),
        !s.contains('+') ==> !trim(s).contains('+'),
{
    lemma_trim_start_is_suffix(s);
    let k = choose|k: int| 0 <= k <= s.len() && trim_start(s) == s.subrange(k, s.len() as int);
    lemma_subrange_keeps(s, k, s.len() as int);
    let t = trim_start(s);
    lemma_trim_end_is_prefix(t);
    let m = choose|m: int| 0 <= m <= t.len() && trim_end(t) == t.subrange(0, m);
    lemma_subrange_keeps(t, 0, m);
}

/// Replacing with ASCII text keeps text ASCII.
proof fn lemma_replace_keeps_ascii(s: Seq<char>, p: Seq<char>, x: Seq<char>)
    requires
        is_ascii_text(s),
        is_ascii_text(x),
    ensures
        is_ascii_text(replace_all(s, p, x)),
    decreases s.len(),
{
    if s.len() > 0 {
        if 0 < p.len() <= s.len() && s.take(p.len() as int) == p {
            lemma_subrange_keeps(s, p.len() as int, s.len() as int);
            assert(s.skip(p.len() as int) =~= s.subrange(p.len() as int, s.len() as int));
            lemma_replace_keeps_ascii(s.skip(p.len() as int), p, x);
            let r = replace_all(s.skip(p.len() as int), p, x);
            assert forall|k: int| 0 <= k < (x + r).len() implies #[trigger] (x + r)[k] <= '\u{7f}' by {
                if k >= x.len() {
                    assert((x + r)[k] == r[k - x.len()]);
                }
            }
        } else {
            lemma_subrange_keeps(s, 1, s.len() as int);
            assert(s.drop_first() =~= s.subrange(1, s.len() as int));
            lemma_replace_keeps_ascii(s.drop_first(), p, x);
            let r = replace_all(s.drop_first(), p, x);
            assert forall|k: int| 0 <= k < (seq![s[0]] + r).len() implies #[trigger] (seq![s[0]]
                + r)[k] <= '\u{7f}' by {
                if k >= 1 {
                    assert((seq![s[0]] + r)[k] == r[k - 1]);
                }
            }
        }
    }
}

/// The normal form of ASCII text is ASCII.
proof fn lemma_normalize_ascii(h: Seq<char>)
    requires
        is_ascii_text(h),
    ensures
        is_ascii_text(normalize(h)),
{
    reveal_strlit("ctrl");
    reveal_strlit("super");
    lemma_trim_keeps(h);
    let l = lowercase(trim(h));
    lemma_ascii_lower_twice(trim(h));
    assert(is_ascii_text("ctrl"@));
    assert(is_ascii_text("super"@));
    let a = replace_all(l, "control"@, "ctrl"@);
    lemma_replace_keeps_ascii(l, "control"@, "ctrl"@);
    let b = replace_all(a, "command"@, "super"@);
    lemma_replace_keeps_ascii(a, "command"@, "super"@);
    let c = replace_all(b, "meta"@, "super"@);
    lemma_replace_keeps_ascii(b, "meta"@, "super"@);
    lemma_replace_keeps_ascii(c, "win"@, "super"@);
}

/// The pieces of a split hold no `+`, and are ASCII where the text is.
proof fn lemma_split_pieces(s: Seq<char>)
    ensures
        forall|k: int|
            0 <= k < split_on(s, '+').len() ==> !(#[trigger] split_on(s, '+')[k]).contains('+')
                && (is_ascii_text(s) ==> is_ascii_text(split_on(s, '+')[k])),
    decreases s.len(),
{
    lemma_split_nonempty(s);
    if s.len() > 0 {
        let front = split_on(s.drop_last(), '+');
        lemma_split_pieces(s.drop_last());
        lemma_split_nonempty(s.drop_last());
        if is_ascii_text(s) {
            assert(is_ascii_text(s.drop_last())) by {
                assert forall|k: int| 0 <= k < s.drop_last().len() implies #[trigger] s.drop_last()[k]
                    <= '\u{7f}' by {
                    assert(s.drop_last()[k] == s[k]);
                }
            }
            assert(s.last() <= '\u{7f}') by {
                assert(s.last() == s[s.len() - 1]);
            }
        }
        if s.last() != '+' {
            let piece = front.last().push(s.last());
            assert(!piece.contains('+')) by {
                if piece.contains('+') {
                    let k = choose|k: int| 0 <= k < piece.len() && piece[k] == '+';
                    if k < front.last().len() {
                        assert(front[front.len() - 1][k] == '+');
                    }
                }
            }
            assert(is_ascii_text(s) ==> is_ascii_text(piece)) by {
                if is_ascii_text(s) {
                    assert(is_ascii_text(front[front.len() - 1]));
                    assert forall|k: int| 0 <= k < piece.len() implies #[trigger] piece[k] <= '\u{7f}' by {
                        if k < front.last().len() {
                            assert(piece[k] == front[front.len() - 1][k]);
                        }
                    }
                }
            }
        }
    }
}

/// A main key read from ASCII text without `+` has a name without `+`.
proof fn lemma_main_key_without_plus(token: Seq<char>, original: Seq<char>)
    requires
        ascii_without_plus(token),
        main_key(token, original) is Ok,
    ensures
        !(main_key(token, original)->Ok_0).1.contains('+'),
    decreases crate::hotkeys::main_key_measure(token),
{
    reveal_strlit("key");
    reveal_strlit("digit");
    lemma_trim_keeps(token);
    let t = trim(token);
    let lower = lowercase(t);
    assert(lower == ascii_lower(t));
    assert(!lower.contains('+')) by {
        if lower.contains('+') {
            let k = choose|k: int| 0 <= k < lower.len() && lower[k] == '+';
            assert(ascii_lower_char(t[k]) == '+');
            assert(t[k] == '+');
        }
    }
    lemma_ascii_lower_twice(t);
    if key_alias(lower) is Some {
        lemma_named_key_lower(lower);
        lemma_plain_text((key_alias(lower)->0).1);
    } else if function_key(lower) is Some {
    } else if prefixed_key(lower, "key"@) is Some || prefixed_key(lower, "digit"@) is Some {
        let prefix = if prefixed_key(lower, "key"@) is Some { "key"@ } else { "digit"@ };
        let rest = prefixed_key(lower, prefix)->0;
        if crate::hotkeys::is_single_ascii(token) {
            crate::hotkeys::lemma_single_ascii_not_prefixed(token, prefix);
        }
        crate::text::lemma_utf8_len_one(rest);
        lemma_subrange_keeps(lower, prefix.len() as int, lower.len() as int);
        assert(rest =~= lower.subrange(prefix.len() as int, lower.len() as int));
        lemma_main_key_without_plus(rest, original);
    } else {
        crate::text::lemma_utf8_len_one(lower);
    }
}

/// The main key that reading tokens keeps is what the main-key parse gave for
/// one of the tokens.
proof fn lemma_main_key_from_token(tokens: Seq<Seq<char>>, hotkey: Seq<char>)
    requires
        apply_tokens(tokens, hotkey) is Ok,
        (apply_tokens(tokens, hotkey)->Ok_0).main_key is Some,
    ensures
        exists|i: int|
            0 <= i < tokens.len() && main_key(#[trigger] tokens[i], hotkey) == Ok::<
                (i32, Seq<char>),
                Seq<char>,
            >((apply_tokens(tokens, hotkey)->Ok_0).main_key->0),
    decreases tokens.len(),
{
    let front = tokens.drop_last();
    let st = apply_tokens(front, hotkey)->Ok_0;
    if st.main_key is Some {
        lemma_main_key_from_token(front, hotkey);
        let i = choose|i: int|
            0 <= i < front.len() && main_key(#[trigger] front[i], hotkey) == Ok::<
                (i32, Seq<char>),
                Seq<char>,
            >((apply_tokens(front, hotkey)->Ok_0).main_key->0);
        assert(tokens[i] == front[i]);
    } else {
        let i = tokens.len() - 1;
        assert(tokens[i] == tokens.last());
    }
}

/// Every ASCII hotkey that parses reads back from its written form as the
/// same binding: registering the written form that registering a hotkey gives
/// back registers the same hotkey again.
pub proof fn lemma_ascii_parse_format_parse(hotkey: Seq<char>)
    requires
        is_ascii_text(hotkey),
        parse_binding(hotkey) is Ok,
    ensures
        parse_binding(format_binding(parse_binding(hotkey)->Ok_0)) == parse_binding(hotkey),
{
    let tokens = hotkey_tokens(hotkey);
    let pieces = split_on(normalize(hotkey), '+');
    lemma_normalize_ascii(hotkey);
    lemma_split_pieces(normalize(hotkey));
    lemma_main_key_from_token(tokens, hotkey);
    let k = (apply_tokens(tokens, hotkey)->Ok_0).main_key->0;
    let i = choose|i: int|
        0 <= i < tokens.len() && main_key(#[trigger] tokens[i], hotkey) == Ok::<
            (i32, Seq<char>),
            Seq<char>,
        >(k);
    assert(tokens[i] == trim(pieces[i]));
    lemma_trim_keeps(pieces[i]);
    lemma_main_key_without_plus(tokens[i], hotkey);
    lemma_parse_format_parse(hotkey);
}


// ---------------------------------------------------------------------------
// The main key: only the trimmed lower case counts, and names read back
// ---------------------------------------------------------------------------

/// Two tokens whose trimmed lower case is the same are read alike as a main
/// key: one is recognized exactly when the other is, as the same key (only the
/// error message, which quotes the token, can differ).
pub proof fn lemma_main_key_same_lower(t1: Seq<char>, t2: Seq<char>, original: Seq<char>)
    requires
        lowercase(trim(t1)) == lowercase(trim(t2)),
    ensures
        main_key(t1, original) is Ok <==> main_key(t2, original) is Ok,
        main_key(t1, original) is Ok ==> main_key(t1, original) == main_key(t2, original),
{
    reveal_strlit("key");
    reveal_strlit("digit");
}

/// The trimmed text is empty or neither starts nor ends with white space.
proof fn lemma_trim_ends(s: Seq<char>)
    ensures
        trim(s).len() > 0 ==> !is_white_space(trim(s)[0]) && !is_white_space(trim(s).last()),
{
    lemma_trim_start_clean(s);
    let t = trim_start(s);
    lemma_trim_end_clean(t);
    lemma_trim_end_is_prefix(t);
    let k = choose|k: int| 0 <= k <= t.len() && trim_end(t) == t.subrange(0, k);
    if trim(s).len() > 0 {
        assert(trim(s)[0] == t[0]);
    }
}

proof fn lemma_trim_start_clean(s: Seq<char>)
    ensures
        trim_start(s).len() > 0 ==> !is_white_space(trim_start(s)[0]),
    decreases s.len(),
{
    if s.len() > 0 && is_white_space(s[0]) {
        lemma_trim_start_clean(s.drop_first());
    }
}

proof fn lemma_trim_end_clean(s: Seq<char>)
    ensures
        trim_end(s).len() > 0 ==> !is_white_space(trim_end(s).last()),
    decreases s.len(),
{
    if s.len() > 0 && is_white_space(s.last()) {
        lemma_trim_end_clean(s.drop_last());
    }
}

/// The ASCII lower case of trimmed text is trimmed, ASCII lower-case text.
proof fn lemma_lower_of_trimmed(s: Seq<char>)
    requires
        is_ascii_text(s),
    ensures
        is_ascii_text(ascii_lower(trim(s))),
        trim(ascii_lower(trim(s))) == ascii_lower(trim(s)),
        ascii_lower(ascii_lower(trim(s))) == ascii_lower(trim(s)),
{
    let t = trim(s);
    lemma_trim_keeps(s);
    lemma_trim_ends(s);
    lemma_ascii_lower_twice(t);
    let l = ascii_lower(t);
    if l.len() > 0 {
        assert(l[0] == ascii_lower_char(t[0]));
        assert(l.last() == ascii_lower_char(t.last()));
        lemma_trim_plain(l);
    } else {
        assert(trim(l) =~= l);
    }
}

/// For ASCII text the main-key parse ignores letter case and surrounding
/// white space: reading the trimmed, lowered token gives the same key, and
/// one is recognized exactly when the other is.
pub proof fn lemma_main_key_ignores_case_and_space(token: Seq<char>, original: Seq<char>)
    requires
        is_ascii_text(token),
    ensures
        main_key(token, original) is Ok <==> main_key(lowercase(trim(token)), original) is Ok,
        main_key(token, original) is Ok ==> main_key(token, original) == main_key(
            lowercase(trim(token)),
            original,
        ),
{
    lemma_trim_keeps(token);
    lemma_lower_of_trimmed(token);
    let l = lowercase(trim(token));
    assert(l == ascii_lower(trim(token)));
    assert(lowercase(trim(l)) == l);
    lemma_main_key_same_lower(token, l, original);
}

/// A function key name is ASCII lower-case text that trims to itself.
proof fn lemma_function_key_name_canonical(vk: i32, name: Seq<char>)
    requires
        key_alias(name) is None,
        function_key(name) == Some(vk),
    ensures
        forall|h: Seq<char>| main_key(name, h) == Ok::<(i32, Seq<char>), Seq<char>>((vk, name)),
{
    let rest = name.drop_first();
    assert(crate::text::decimal_value(rest) is Some);
    if rest[0] == '-' {
        crate::text::lemma_digits_value_grows(rest.drop_first(), 0);
    }
    assert forall|i: int| 0 <= i < name.len() implies #[trigger] name[i] <= '\u{7f}'
        && !is_white_space(name[i]) && !('A' <= name[i] <= 'Z') by {
        if i > 0 {
            assert(name[i] == rest[i - 1]);
            if i > 1 || !(rest[0] == '+' || rest[0] == '-') {
                if rest[0] == '+' || rest[0] == '-' {
                    assert(rest[i - 1] == rest.drop_first()[i - 2]);
                    assert(crate::text::is_digit(rest.drop_first()[i - 2]));
                } else {
                    assert(crate::text::is_digit(rest[i - 1]));
                }
            }
        }
    }
    lemma_trim_plain(name);
    lemma_ascii_lower_fixed(name);
    assert forall|h: Seq<char>| main_key(name, h) == Ok::<(i32, Seq<char>), Seq<char>>((vk, name)) by {
        assert(lowercase(trim(name)) == name);
    }
}

/// The name of a key that the main-key parse gives back is read again, with
/// any hotkey quoted, as the same code and the same name.
pub proof fn lemma_main_key_name_is_canonical(
    token: Seq<char>,
    original: Seq<char>,
    other: Seq<char>,
)
    requires
        main_key(token, original) is Ok,
    ensures
        main_key((main_key(token, original)->Ok_0).1, other) == main_key(token, original),
{
    lemma_main_key_is_key_name(token, original);
    let (vk, name) = main_key(token, original)->Ok_0;
    if key_alias(name) is None && function_key(name) == Some(vk) {
        lemma_function_key_name_canonical(vk, name);
    } else {
        if exists|lower: Seq<char>| key_alias(lower) == Some((vk, name)) {
            let lower = choose|lower: Seq<char>| key_alias(lower) == Some((vk, name));
            lemma_named_key_reads_back(lower);
        } else {
            lemma_single_key_reads_back(vk, name);
        }
        // The name is plain text, so it trims to itself and lowers in ASCII,
        // as its lower case does.
        lemma_plain_text(name);
        lemma_plain_text(ascii_lower(name));
        lemma_trim_plain(name);
        lemma_trim_plain(ascii_lower(name));
        lemma_ascii_lower_twice(name);
        assert(lowercase(trim(name)) == lowercase(trim(ascii_lower(name))));
        lemma_main_key_same_lower(name, ascii_lower(name), other);
    }
}


// ---------------------------------------------------------------------------
// The order of the tokens
// ---------------------------------------------------------------------------

/// How many of the tokens are not modifier names, and so are read as the main
/// key.
pub open spec fn main_token_count(tokens: Seq<Seq<char>>) -> nat
    decreases tokens.len(),
{
    if tokens.len() == 0 {
        0
    } else {
        main_token_count(tokens.drop_last()) + if is_modifier_name(tokens.last()) {
            0nat
        } else {
            1nat
        }
    }
}

/// A token that reads: it is not empty, and where it is no modifier name it
/// is a recognized main key.
pub open spec fn token_reads(t: Seq<char>, hotkey: Seq<char>) -> bool {
    t.len() > 0 && (!is_modifier_name(t) ==> main_key(t, hotkey) is Ok)
}

proof fn lemma_push_contains(front: Seq<Seq<char>>, last: Seq<char>, x: Seq<char>)
    ensures
        front.push(last).contains(x) <==> (front.contains(x) || last == x),
{
    let t = front.push(last);
    if front.contains(x) {
        let i = choose|i: int| 0 <= i < front.len() && front[i] == x;
        assert(t[i] == x);
    }
    if last == x {
        assert(t[t.len() - 1] == x);
    }
    if t.contains(x) {
        let i = choose|i: int| 0 <= i < t.len() && t[i] == x;
        if i < front.len() {
            assert(front[i] == x);
        }
    }
}

/// Tokens with no main token are all modifier names; tokens with one have it
/// at a single place.
proof fn lemma_main_token_count(tokens: Seq<Seq<char>>)
    ensures
        main_token_count(tokens) == 0 <==> forall|i: int|
            0 <= i < tokens.len() ==> is_modifier_name(#[trigger] tokens[i]),
        main_token_count(tokens) <= 1 ==> forall|i: int, j: int|
            0 <= i < tokens.len() && 0 <= j < tokens.len() && !is_modifier_name(
                #[trigger] tokens[i],
            ) && !is_modifier_name(#[trigger] tokens[j]) ==> i == j,
    decreases tokens.len(),
{
    if tokens.len() > 0 {
        let front = tokens.drop_last();
        lemma_main_token_count(front);
        assert forall|i: int| 0 <= i < front.len() implies front[i] == #[trigger] tokens[i] by {}
        if main_token_count(tokens) == 0 {
            assert forall|i: int| 0 <= i < tokens.len() implies is_modifier_name(
                #[trigger] tokens[i],
            ) by {
                if i < front.len() {
                    assert(front[i] == tokens[i]);
                }
            }
        }
        if forall|i: int| 0 <= i < tokens.len() ==> is_modifier_name(#[trigger] tokens[i]) {
            assert forall|i: int| 0 <= i < front.len() implies is_modifier_name(
                #[trigger] front[i],
            ) by {
                assert(front[i] == tokens[i]);
            }
            assert(is_modifier_name(tokens[tokens.len() - 1]));
        }
        if main_token_count(tokens) <= 1 {
            assert forall|i: int, j: int|
                0 <= i < tokens.len() && 0 <= j < tokens.len() && !is_modifier_name(
                    #[trigger] tokens[i],
                ) && !is_modifier_name(#[trigger] tokens[j]) implies i == j by {
                if i < front.len() && j < front.len() {
                    assert(front[i] == tokens[i] && front[j] == tokens[j]);
                } else if i < front.len() {
                    assert(front[i] == tokens[i]);
                    assert(!is_modifier_name(tokens.last()));
                    assert(main_token_count(front) == 0);
                } else if j < front.len() {
                    assert(front[j] == tokens[j]);
                    assert(!is_modifier_name(tokens.last()));
                    assert(main_token_count(front) == 0);
                }
            }
        }
    }
}

/// When a hotkey's tokens read, and what they set: they read exactly when
/// every token reads and at most one is not a modifier name; then each
/// modifier is set exactly when one of its names occurs among the tokens (so
/// a repeated modifier changes nothing), and the main key is what the
/// main-key parse gives for the one token that is no modifier name.
pub proof fn lemma_tokens_read_when(tokens: Seq<Seq<char>>, hotkey: Seq<char>)
    ensures
        apply_tokens(tokens, hotkey) is Ok <==> ((forall|i: int|
            0 <= i < tokens.len() ==> token_reads(#[trigger] tokens[i], hotkey)) && main_token_count(
            tokens,
        ) <= 1),
        apply_tokens(tokens, hotkey) is Ok ==> ({
            let st = apply_tokens(tokens, hotkey)->Ok_0;
            &&& st.ctrl == (tokens.contains("ctrl"@) || tokens.contains("control"@))
            &&& st.alt == (tokens.contains("alt"@) || tokens.contains("option"@))
            &&& st.shift == tokens.contains("shift"@)
            &&& st.super_key == (tokens.contains("super"@) || tokens.contains("command"@)
                || tokens.contains("cmd"@) || tokens.contains("meta"@) || tokens.contains(
                "win"@,
            ))
            &&& (main_token_count(tokens) == 0 ==> st.main_key is None)
            &&& forall|i: int|
                0 <= i < tokens.len() && !is_modifier_name(#[trigger] tokens[i])
                    ==> st.main_key == Some(main_key(tokens[i], hotkey)->Ok_0)
        }),
    decreases tokens.len(),
{
    reveal_strlit("alt");
    reveal_strlit("option");
    reveal_strlit("ctrl");
    reveal_strlit("control");
    reveal_strlit("shift");
    reveal_strlit("super");
    reveal_strlit("command");
    reveal_strlit("cmd");
    reveal_strlit("meta");
    reveal_strlit("win");
    lemma_main_token_count(tokens);
    if tokens.len() == 0 {
    } else {
        let front = tokens.drop_last();
        let last = tokens.last();
        assert(front.push(last) =~= tokens);
        lemma_tokens_read_when(front, hotkey);
        lemma_main_token_count(front);
        assert forall|i: int| 0 <= i < front.len() implies front[i] == #[trigger] tokens[i] by {}
        assert(tokens[tokens.len() - 1] == last);
        assert((forall|i: int| 0 <= i < tokens.len() ==> token_reads(#[trigger] tokens[i], hotkey))
            <==> ((forall|i: int| 0 <= i < front.len() ==> token_reads(#[trigger] front[i], hotkey))
            && token_reads(last, hotkey))) by {
            if forall|i: int| 0 <= i < tokens.len() ==> token_reads(#[trigger] tokens[i], hotkey) {
                assert forall|i: int| 0 <= i < front.len() implies token_reads(
                    #[trigger] front[i],
                    hotkey,
                ) by {
                    assert(front[i] == tokens[i]);
                }
            }
            if (forall|i: int| 0 <= i < front.len() ==> token_reads(#[trigger] front[i], hotkey))
                && token_reads(last, hotkey) {
                assert forall|i: int| 0 <= i < tokens.len() implies token_reads(
                    #[trigger] tokens[i],
                    hotkey,
                ) by {
                    if i < front.len() {
                        assert(front[i] == tokens[i]);
                    }
                }
            }
        }
        lemma_push_contains(front, last, "ctrl"@);
        lemma_push_contains(front, last, "control"@);
        lemma_push_contains(front, last, "alt"@);
        lemma_push_contains(front, last, "option"@);
        lemma_push_contains(front, last, "shift"@);
        lemma_push_contains(front, last, "super"@);
        lemma_push_contains(front, last, "command"@);
        lemma_push_contains(front, last, "cmd"@);
        lemma_push_contains(front, last, "meta"@);
        lemma_push_contains(front, last, "win"@);
        if apply_tokens(tokens, hotkey) is Ok && !is_modifier_name(last) {
            assert forall|i: int|
                0 <= i < tokens.len() && !is_modifier_name(#[trigger] tokens[i]) implies i
                == tokens.len() - 1 by {
                if i < front.len() {
                    assert(front[i] == tokens[i]);
                }
            }
        }
        if apply_tokens(tokens, hotkey) is Ok && is_modifier_name(last) {
            assert forall|i: int|
                0 <= i < tokens.len() && !is_modifier_name(#[trigger] tokens[i]) implies i
                < front.len() by {}
        }
    }
}

/// How many tokens that are no modifier name a rearrangement keeps.
proof fn lemma_main_token_count_remove(tokens: Seq<Seq<char>>, i: int)
    requires
        0 <= i < tokens.len(),
    ensures
        main_token_count(tokens) == main_token_count(tokens.remove(i)) + if is_modifier_name(
            tokens[i],
        ) {
            0nat
        } else {
            1nat
        },
    decreases tokens.len(),
{
    if i == tokens.len() - 1 {
        assert(tokens.remove(i) =~= tokens.drop_last());
    } else {
        lemma_main_token_count_remove(tokens.drop_last(), i);
        assert(tokens.remove(i).drop_last() =~= tokens.drop_last().remove(i));
        assert(tokens.remove(i).last() == tokens.last());
    }
}

proof fn lemma_main_token_count_multiset(t1: Seq<Seq<char>>, t2: Seq<Seq<char>>)
    requires
        t1.to_multiset() == t2.to_multiset(),
    ensures
        main_token_count(t1) == main_token_count(t2),
    decreases t1.len(),
{
    broadcast use vstd::seq_lib::group_to_multiset_ensures;

    if t1.len() == 0 {
        assert(t2.len() == 0) by {
            vstd::seq_lib::to_multiset_len(t1);
            vstd::seq_lib::to_multiset_len(t2);
        }
    } else {
        let a = t1.last();
        vstd::seq_lib::to_multiset_contains(t1, a);
        assert(t1.contains(a)) by {
            assert(t1[t1.len() - 1] == a);
        }
        vstd::seq_lib::to_multiset_contains(t2, a);
        let i = choose|i: int| 0 <= i < t2.len() && t2[i] == a;
        vstd::seq_lib::to_multiset_remove(t1, t1.len() - 1);
        vstd::seq_lib::to_multiset_remove(t2, i);
        assert(t1.remove(t1.len() - 1) =~= t1.drop_last());
        lemma_main_token_count_multiset(t1.drop_last(), t2.remove(i));
        lemma_main_token_count_remove(t2, i);
    }
}

/// Rearranging the tokens of a hotkey leaves what it parses to as it is: a
/// modifier may come before or after the main key, in any order. One of the
/// two parses exactly when the other does, and then to the same binding; only
/// an error message, which quotes the hotkey, can differ.
pub proof fn lemma_parse_ignores_token_order(h1: Seq<char>, h2: Seq<char>)
    requires
        hotkey_tokens(h2).to_multiset() == hotkey_tokens(h1).to_multiset(),
    ensures
        parse_binding(h1) is Ok <==> parse_binding(h2) is Ok,
        parse_binding(h1) is Ok ==> parse_binding(h2) == parse_binding(h1),
{
    if parse_binding(h1) is Ok {
        lemma_reordered_tokens_parse(h1, h2);
    } else if parse_binding(h2) is Ok {
        lemma_reordered_tokens_parse(h2, h1);
    }
}

/// Rearranging the tokens of a hotkey that parses leaves its binding as it is.
proof fn lemma_reordered_tokens_parse(h1: Seq<char>, h2: Seq<char>)
    requires
        parse_binding(h1) is Ok,
        hotkey_tokens(h2).to_multiset() == hotkey_tokens(h1).to_multiset(),
    ensures
        parse_binding(h2) == parse_binding(h1),
{
    broadcast use vstd::seq_lib::group_to_multiset_ensures;

    let t1 = hotkey_tokens(h1);
    let t2 = hotkey_tokens(h2);
    lemma_tokens_read_when(t1, h1);
    lemma_tokens_read_when(t2, h2);
    lemma_main_token_count_multiset(t1, t2);
    assert forall|x: Seq<char>| t1.contains(x) <==> t2.contains(x) by {
        vstd::seq_lib::to_multiset_contains(t1, x);
        vstd::seq_lib::to_multiset_contains(t2, x);
    }
    assert forall|j: int| 0 <= j < t2.len() implies token_reads(#[trigger] t2[j], h2) by {
        assert(t2.contains(t2[j]));
        let i = choose|i: int| 0 <= i < t1.len() && t1[i] == t2[j];
        assert(token_reads(t1[i], h1));
        lemma_main_key_original(t2[j], h1, h2);
    }
    let st1 = apply_tokens(t1, h1)->Ok_0;
    assert(apply_tokens(t2, h2) is Ok);
    let st2 = apply_tokens(t2, h2)->Ok_0;
    assert(main_token_count(t1) == 1);
    lemma_main_token_count(t2);
    let j = choose|j: int| 0 <= j < t2.len() && !is_modifier_name(#[trigger] t2[j]);
    assert(t2.contains(t2[j]));
    let i = choose|i: int| 0 <= i < t1.len() && t1[i] == t2[j];
    lemma_main_key_original(t2[j], h1, h2);
    assert(st2.main_key == st1.main_key);
    assert(st2 == st1);
}


// ---------------------------------------------------------------------------
// Normalizing twice
// ---------------------------------------------------------------------------

/// Whether `q` occurs in `s` at position `i`.
pub open spec fn occurs_at(s: Seq<char>, q: Seq<char>, i: int) -> bool {
    0 <= i && i + q.len() <= s.len() && s.subrange(i, i + q.len()) == q
}

/// Whether `q` occurs nowhere in `s`.
pub open spec fn free_of(s: Seq<char>, q: Seq<char>) -> bool {
    forall|i: int| !#[trigger] occurs_at(s, q, i)
}

/// Whether no occurrence of `q` can overlap a copy of `x`: neither holds the
/// other, and no end of one is a beginning of the other.
pub open spec fn no_overlap(q: Seq<char>, x: Seq<char>) -> bool {
    &&& free_of(x, q)
    &&& free_of(q, x)
    &&& forall|k: int| 1 <= k < q.len() && k <= x.len() ==> #[trigger] q.take(k) != x.skip(x.len() - k)
    &&& forall|k: int| 1 <= k < q.len() && k <= x.len() ==> #[trigger] q.skip(q.len() - k) != x.take(k)
}

/// An occurrence of `q` in `w + x + r`, where no occurrence of `q` can
/// overlap `x`, lies inside `w` or inside `r`.
proof fn lemma_occurrence_sides(w: Seq<char>, x: Seq<char>, r: Seq<char>, q: Seq<char>, i: int)
    requires
        occurs_at(w + x + r, q, i),
        no_overlap(q, x),
        x.len() > 0,
    ensures
        (i + q.len() <= w.len() && occurs_at(w, q, i)) || (i >= w.len() + x.len() && occurs_at(
            r,
            q,
            i - w.len() - x.len(),
        )),
{
    let u = w + x + r;
    let wl = w.len() as int;
    let xl = x.len() as int;
    let ql = q.len() as int;
    assert(u.subrange(i, i + ql) == q);
    if i + ql <= wl {
        assert(w.subrange(i, i + ql) =~= u.subrange(i, i + ql));
    } else if i >= wl + xl {
        assert(r.subrange(i - wl - xl, i - wl - xl + ql) =~= u.subrange(i, i + ql));
    } else if i >= wl && i + ql <= wl + xl {
        assert(x.subrange(i - wl, i - wl + ql) =~= u.subrange(i, i + ql));
        assert(occurs_at(x, q, i - wl));
    } else if i < wl && i + ql > wl + xl {
        assert(q.subrange(wl - i, wl - i + xl) =~= x);
        assert(occurs_at(q, x, wl - i));
    } else if i < wl {
        let k = i + ql - wl;
        assert(q.skip(ql - k) =~= x.take(k));
    } else {
        let k = wl + xl - i;
        assert(q.take(k) =~= x.skip(xl - k));
    }
}

proof fn lemma_free_of_subrange(s: Seq<char>, q: Seq<char>, a: int, b: int)
    requires
        free_of(s, q),
        0 <= a <= b <= s.len(),
    ensures
        free_of(s.subrange(a, b), q),
{
    assert forall|i: int| !#[trigger] occurs_at(s.subrange(a, b), q, i) by {
        if occurs_at(s.subrange(a, b), q, i) {
            assert(s.subrange(a + i, a + i + q.len()) =~= s.subrange(a, b).subrange(i, i + q.len()));
            assert(occurs_at(s, q, a + i));
        }
    }
}

/// Where `q` cannot overlap `x`, replacing `p` by `x` makes no new
/// occurrence of `q`.
proof fn lemma_replace_keeps_free(w: Seq<char>, s: Seq<char>, p: Seq<char>, x: Seq<char>, q: Seq<char>)
    requires
        free_of(w + s, q),
        no_overlap(q, x),
        x.len() > 0,
    ensures
        free_of(w + replace_all(s, p, x), q),
    decreases s.len(),
{
    if s.len() == 0 {
        assert(w + s =~= w + replace_all(s, p, x));
    } else if 0 < p.len() <= s.len() && s.take(p.len() as int) == p {
        let rest = s.skip(p.len() as int);
        lemma_free_of_subrange(w + s, q, 0, w.len() as int);
        assert((w + s).subrange(0, w.len() as int) =~= w);
        lemma_free_of_subrange(w + s, q, (w.len() + p.len()) as int, (w + s).len() as int);
        assert((w + s).subrange((w.len() + p.len()) as int, (w + s).len() as int) =~= rest);
        assert forall|i: int| !#[trigger] occurs_at(w + x + rest, q, i) by {
            if occurs_at(w + x + rest, q, i) {
                lemma_occurrence_sides(w, x, rest, q, i);
            }
        }
        lemma_replace_keeps_free(w + x, rest, p, x, q);
        assert(w + replace_all(s, p, x) =~= (w + x) + replace_all(rest, p, x));
    } else {
        let w2 = w.push(s[0]);
        assert(w2 + s.drop_first() =~= w + s);
        lemma_replace_keeps_free(w2, s.drop_first(), p, x, q);
        assert(w + replace_all(s, p, x) =~= w2 + replace_all(s.drop_first(), p, x));
    }
}

/// Where `p` cannot overlap `x`, replacing `p` by `x` leaves no `p`, given
/// that no `p` starts in the part `w` already read.
proof fn lemma_replace_removes(w: Seq<char>, s: Seq<char>, p: Seq<char>, x: Seq<char>)
    requires
        forall|i: int| i < w.len() ==> !#[trigger] occurs_at(w + s, p, i),
        no_overlap(p, x),
        p.len() > 0,
        x.len() > 0,
    ensures
        free_of(w + replace_all(s, p, x), p),
    decreases s.len(),
{
    if s.len() == 0 {
        assert(w + s =~= w + replace_all(s, p, x));
        assert forall|i: int| !#[trigger] occurs_at(w + replace_all(s, p, x), p, i) by {
            if occurs_at(w + replace_all(s, p, x), p, i) {
                assert(occurs_at(w + s, p, i));
            }
        }
    } else if p.len() <= s.len() && s.take(p.len() as int) == p {
        let rest = s.skip(p.len() as int);
        let wx = w + x;
        assert forall|i: int| i < wx.len() implies !#[trigger] occurs_at(wx + rest, p, i) by {
            if occurs_at(wx + rest, p, i) {
                lemma_occurrence_sides(w, x, rest, p, i);
                assert((w + s).subrange(i, i + p.len()) =~= w.subrange(i, i + p.len()));
                assert(occurs_at(w + s, p, i));
            }
        }
        lemma_replace_removes(wx, rest, p, x);
        assert(w + replace_all(s, p, x) =~= wx + replace_all(rest, p, x));
    } else {
        let w2 = w.push(s[0]);
        assert(w2 + s.drop_first() =~= w + s);
        assert forall|i: int| i < w2.len() implies !#[trigger] occurs_at(w2 + s.drop_first(), p, i) by {
            if i == w.len() && occurs_at(w + s, p, i) {
                assert((w + s).subrange(i, i + p.len()) =~= s.take(p.len() as int));
            }
        }
        lemma_replace_removes(w2, s.drop_first(), p, x);
        assert(w + replace_all(s, p, x) =~= w2 + replace_all(s.drop_first(), p, x));
    }
}

/// Where `p` occurs nowhere, replacing it changes nothing.
proof fn lemma_replace_free(s: Seq<char>, p: Seq<char>, x: Seq<char>)
    requires
        free_of(s, p),
        p.len() > 0,
    ensures
        replace_all(s, p, x) == s,
    decreases s.len(),
{
    if s.len() > 0 {
        if p.len() <= s.len() && s.take(p.len() as int) == p {
            assert(s.subrange(0, p.len() as int) =~= s.take(p.len() as int));
            assert(occurs_at(s, p, 0));
        }
        lemma_free_of_subrange(s, p, 1, s.len() as int);
        assert(s.subrange(1, s.len() as int) =~= s.drop_first());
        lemma_replace_free(s.drop_first(), p, x);
        assert(seq![s[0]] + s.drop_first() =~= s);
    }
}

/// Whether `s` is empty or neither starts nor ends with white space.
pub open spec fn clean_ends(s: Seq<char>) -> bool {
    s.len() == 0 || (!is_white_space(s[0]) && !is_white_space(s.last()))
}

/// Whether `s` has no ASCII capital letter.
pub open spec fn no_capitals(s: Seq<char>) -> bool {
    forall|i: int| 0 <= i < s.len() ==> !('A' <= #[trigger] s[i] <= 'Z')
}

/// Replacing with text that has clean ends and no capitals keeps both.
proof fn lemma_replace_keeps_shape(s: Seq<char>, p: Seq<char>, x: Seq<char>)
    requires
        x.len() > 0,
        clean_ends(x),
        no_capitals(x),
    ensures
        clean_ends(s) ==> clean_ends(replace_all(s, p, x)),
        no_capitals(s) ==> no_capitals(replace_all(s, p, x)),
        replace_all(s, p, x).len() == 0 <==> s.len() == 0,
        s.len() > 0 ==> (replace_all(s, p, x)[0] == s[0] || replace_all(s, p, x)[0] == x[0]),
        s.len() > 0 ==> (replace_all(s, p, x).last() == s.last() || replace_all(s, p, x).last()
            == x.last()),
    decreases s.len(),
{
    if s.len() > 0 {
        let r = replace_all(s, p, x);
        if 0 < p.len() <= s.len() && s.take(p.len() as int) == p {
            let rest = s.skip(p.len() as int);
            lemma_replace_keeps_shape(rest, p, x);
            let t = replace_all(rest, p, x);
            assert(r == x + t);
            if rest.len() > 0 {
                assert(rest.last() == s.last());
                assert(r.last() == t.last());
            } else {
                assert(r =~= x);
            }
            if no_capitals(s) {
                assert(no_capitals(rest)) by {
                    assert forall|i: int| 0 <= i < rest.len() implies !('A' <= #[trigger] rest[i]
                        <= 'Z') by {
                        assert(rest[i] == s[i + p.len()]);
                    }
                }
                assert forall|i: int| 0 <= i < r.len() implies !('A' <= #[trigger] r[i] <= 'Z') by {
                    if i >= x.len() {
                        assert(r[i] == t[i - x.len()]);
                    } else {
                        assert(r[i] == x[i]);
                    }
                }
            }
        } else {
            let rest = s.drop_first();
            lemma_replace_keeps_shape(rest, p, x);
            let t = replace_all(rest, p, x);
            assert(r == seq![s[0]] + t);
            if rest.len() > 0 {
                assert(rest.last() == s.last());
                assert(r.last() == t.last());
            } else {
                assert(r =~= seq![s[0]]);
            }
            if no_capitals(s) {
                assert(no_capitals(rest)) by {
                    assert forall|i: int| 0 <= i < rest.len() implies !('A' <= #[trigger] rest[i]
                        <= 'Z') by {
                        assert(rest[i] == s[i + 1]);
                    }
                }
                assert forall|i: int| 0 <= i < r.len() implies !('A' <= #[trigger] r[i] <= 'Z') by {
                    if i >= 1 {
                        assert(r[i] == t[i - 1]);
                    }
                }
            }
        }
    }
}

proof fn lemma_no_overlap_control_ctrl()
    ensures
        no_overlap("control"@, "ctrl"@),
{
    reveal_strlit("control");
    reveal_strlit("ctrl");
    assert forall|i: int| !occurs_at("ctrl"@, "control"@, i) by {
    }
    assert forall|i: int| !occurs_at("control"@, "ctrl"@, i) by {
        if i == 0 {
            assert("control"@.subrange(0, 4)[1] != "ctrl"@[1]);
        } else if i == 1 {
            assert("control"@.subrange(1, 5)[0] != "ctrl"@[0]);
        } else if i == 2 {
            assert("control"@.subrange(2, 6)[0] != "ctrl"@[0]);
        } else if i == 3 {
            assert("control"@.subrange(3, 7)[0] != "ctrl"@[0]);
        }
    }
    assert forall|k: int| 1 <= k < "control"@.len() && k <= "ctrl"@.len() implies #[trigger] "control"@.take(k) != "ctrl"@.skip("ctrl"@.len() - k) by {
        if k == 1 {
            assert("control"@.take(k)[0] != "ctrl"@.skip("ctrl"@.len() - k)[0]);
        } else if k == 2 {
            assert("control"@.take(k)[0] != "ctrl"@.skip("ctrl"@.len() - k)[0]);
        } else if k == 3 {
            assert("control"@.take(k)[0] != "ctrl"@.skip("ctrl"@.len() - k)[0]);
        } else if k == 4 {
            assert("control"@.take(k)[1] != "ctrl"@.skip("ctrl"@.len() - k)[1]);
        }
    }
    assert forall|k: int| 1 <= k < "control"@.len() && k <= "ctrl"@.len() implies #[trigger] "control"@.skip("control"@.len() - k) != "ctrl"@.take(k) by {
        if k == 1 {
            assert("control"@.skip("control"@.len() - k)[0] != "ctrl"@.take(k)[0]);
        } else if k == 2 {
            assert("control"@.skip("control"@.len() - k)[0] != "ctrl"@.take(k)[0]);
        } else if k == 3 {
            assert("control"@.skip("control"@.len() - k)[0] != "ctrl"@.take(k)[0]);
        } else if k == 4 {
            assert("control"@.skip("control"@.len() - k)[0] != "ctrl"@.take(k)[0]);
        }
    }
}

proof fn lemma_no_overlap_command_super()
    ensures
        no_overlap("command"@, "super"@),
{
    reveal_strlit("command");
    reveal_strlit("super");
    assert forall|i: int| !occurs_at("super"@, "command"@, i) by {
    }
    assert forall|i: int| !occurs_at("command"@, "super"@, i) by {
        if i == 0 {
            assert("command"@.subrange(0, 5)[0] != "super"@[0]);
        } else if i == 1 {
            assert("command"@.subrange(1, 6)[0] != "super"@[0]);
        } else if i == 2 {
            assert("command"@.subrange(2, 7)[0] != "super"@[0]);
        }
    }
    assert forall|k: int| 1 <= k < "command"@.len() && k <= "super"@.len() implies #[trigger] "command"@.take(k) != "super"@.skip("super"@.len() - k) by {
        if k == 1 {
            assert("command"@.take(k)[0] != "super"@.skip("super"@.len() - k)[0]);
        } else if k == 2 {
            assert("command"@.take(k)[0] != "super"@.skip("super"@.len() - k)[0]);
        } else if k == 3 {
            assert("command"@.take(k)[0] != "super"@.skip("super"@.len() - k)[0]);
        } else if k == 4 {
            assert("command"@.take(k)[0] != "super"@.skip("super"@.len() - k)[0]);
        } else if k == 5 {
            assert("command"@.take(k)[0] != "super"@.skip("super"@.len() - k)[0]);
        }
    }
    assert forall|k: int| 1 <= k < "command"@.len() && k <= "super"@.len() implies #[trigger] "command"@.skip("command"@.len() - k) != "super"@.take(k) by {
        if k == 1 {
            assert("command"@.skip("command"@.len() - k)[0] != "super"@.take(k)[0]);
        } else if k == 2 {
            assert("command"@.skip("command"@.len() - k)[0] != "super"@.take(k)[0]);
        } else if k == 3 {
            assert("command"@.skip("command"@.len() - k)[0] != "super"@.take(k)[0]);
        } else if k == 4 {
            assert("command"@.skip("command"@.len() - k)[0] != "super"@.take(k)[0]);
        } else if k == 5 {
            assert("command"@.skip("command"@.len() - k)[0] != "super"@.take(k)[0]);
        }
    }
}

proof fn lemma_no_overlap_meta_super()
    ensures
        no_overlap("meta"@, "super"@),
{
    reveal_strlit("meta");
    reveal_strlit("super");
    assert forall|i: int| !occurs_at("super"@, "meta"@, i) by {
        if i == 0 {
            assert("super"@.subrange(0, 4)[0] != "meta"@[0]);
        } else if i == 1 {
            assert("super"@.subrange(1, 5)[0] != "meta"@[0]);
        }
    }
    assert forall|i: int| !occurs_at("meta"@, "super"@, i) by {
    }
    assert forall|k: int| 1 <= k < "meta"@.len() && k <= "super"@.len() implies #[trigger] "meta"@.take(k) != "super"@.skip("super"@.len() - k) by {
        if k == 1 {
            assert("meta"@.take(k)[0] != "super"@.skip("super"@.len() - k)[0]);
        } else if k == 2 {
            assert("meta"@.take(k)[0] != "super"@.skip("super"@.len() - k)[0]);
        } else if k == 3 {
            assert("meta"@.take(k)[0] != "super"@.skip("super"@.len() - k)[0]);
        }
    }
    assert forall|k: int| 1 <= k < "meta"@.len() && k <= "super"@.len() implies #[trigger] "meta"@.skip("meta"@.len() - k) != "super"@.take(k) by {
        if k == 1 {
            assert("meta"@.skip("meta"@.len() - k)[0] != "super"@.take(k)[0]);
        } else if k == 2 {
            assert("meta"@.skip("meta"@.len() - k)[0] != "super"@.take(k)[0]);
        } else if k == 3 {
            assert("meta"@.skip("meta"@.len() - k)[0] != "super"@.take(k)[0]);
        }
    }
}

proof fn lemma_no_overlap_win_super()
    ensures
        no_overlap("win"@, "super"@),
{
    reveal_strlit("win");
    reveal_strlit("super");
    assert forall|i: int| !occurs_at("super"@, "win"@, i) by {
        if i == 0 {
            assert("super"@.subrange(0, 3)[0] != "win"@[0]);
        } else if i == 1 {
            assert("super"@.subrange(1, 4)[0] != "win"@[0]);
        } else if i == 2 {
            assert("super"@.subrange(2, 5)[0] != "win"@[0]);
        }
    }
    assert forall|i: int| !occurs_at("win"@, "super"@, i) by {
    }
    assert forall|k: int| 1 <= k < "win"@.len() && k <= "super"@.len() implies #[trigger] "win"@.take(k) != "super"@.skip("super"@.len() - k) by {
        if k == 1 {
            assert("win"@.take(k)[0] != "super"@.skip("super"@.len() - k)[0]);
        } else if k == 2 {
            assert("win"@.take(k)[0] != "super"@.skip("super"@.len() - k)[0]);
        }
    }
    assert forall|k: int| 1 <= k < "win"@.len() && k <= "super"@.len() implies #[trigger] "win"@.skip("win"@.len() - k) != "super"@.take(k) by {
        if k == 1 {
            assert("win"@.skip("win"@.len() - k)[0] != "super"@.take(k)[0]);
        } else if k == 2 {
            assert("win"@.skip("win"@.len() - k)[0] != "super"@.take(k)[0]);
        }
    }
}

proof fn lemma_no_overlap_control_super()
    ensures
        no_overlap("control"@, "super"@),
{
    reveal_strlit("control");
    reveal_strlit("super");
    assert forall|i: int| !occurs_at("super"@, "control"@, i) by {
    }
    assert forall|i: int| !occurs_at("control"@, "super"@, i) by {
        if i == 0 {
            assert("control"@.subrange(0, 5)[0] != "super"@[0]);
        } else if i == 1 {
            assert("control"@.subrange(1, 6)[0] != "super"@[0]);
        } else if i == 2 {
            assert("control"@.subrange(2, 7)[0] != "super"@[0]);
        }
    }
    assert forall|k: int| 1 <= k < "control"@.len() && k <= "super"@.len() implies #[trigger] "control"@.take(k) != "super"@.skip("super"@.len() - k) by {
        if k == 1 {
            assert("control"@.take(k)[0] != "super"@.skip("super"@.len() - k)[0]);
        } else if k == 2 {
            assert("control"@.take(k)[0] != "super"@.skip("super"@.len() - k)[0]);
        } else if k == 3 {
            assert("control"@.take(k)[0] != "super"@.skip("super"@.len() - k)[0]);
        } else if k == 4 {
            assert("control"@.take(k)[0] != "super"@.skip("super"@.len() - k)[0]);
        } else if k == 5 {
            assert("control"@.take(k)[0] != "super"@.skip("super"@.len() - k)[0]);
        }
    }
    assert forall|k: int| 1 <= k < "control"@.len() && k <= "super"@.len() implies #[trigger] "control"@.skip("control"@.len() - k) != "super"@.take(k) by {
        if k == 1 {
            assert("control"@.skip("control"@.len() - k)[0] != "super"@.take(k)[0]);
        } else if k == 2 {
            assert("control"@.skip("control"@.len() - k)[0] != "super"@.take(k)[0]);
        } else if k == 3 {
            assert("control"@.skip("control"@.len() - k)[0] != "super"@.take(k)[0]);
        } else if k == 4 {
            assert("control"@.skip("control"@.len() - k)[0] != "super"@.take(k)[0]);
        } else if k == 5 {
            assert("control"@.skip("control"@.len() - k)[0] != "super"@.take(k)[0]);
        }
    }
}

/// Normalizing an ASCII hotkey string twice gives what normalizing it once
/// gives.
pub proof fn lemma_normalize_twice(h: Seq<char>)
    requires
        is_ascii_text(h),
    ensures
        normalize(normalize(h)) == normalize(h),
{
    reveal_strlit("control");
    reveal_strlit("command");
    reveal_strlit("meta");
    reveal_strlit("win");
    reveal_strlit("ctrl");
    reveal_strlit("super");
    lemma_no_overlap_control_ctrl();
    lemma_no_overlap_command_super();
    lemma_no_overlap_meta_super();
    lemma_no_overlap_win_super();
    lemma_no_overlap_control_super();
    let e = Seq::<char>::empty();
    // The lowered text: ASCII, with clean ends and no capitals.
    lemma_trim_keeps(h);
    lemma_lower_of_trimmed(h);
    lemma_trim_ends(h);
    let l = ascii_lower(trim(h));
    assert(lowercase(trim(h)) == l);
    assert(clean_ends(l)) by {
        if l.len() > 0 {
            assert(l[0] == ascii_lower_char(trim(h)[0]));
            assert(l.last() == ascii_lower_char(trim(h).last()));
        }
    }
    assert(no_capitals(l));
    assert(clean_ends("ctrl"@) && no_capitals("ctrl"@) && is_ascii_text("ctrl"@));
    assert(clean_ends("super"@) && no_capitals("super"@) && is_ascii_text("super"@));
    // Each replacement removes its pattern and makes none of the earlier ones.
    let a1 = replace_all(l, "control"@, "ctrl"@);
    assert(e + l =~= l);
    lemma_replace_removes(e, l, "control"@, "ctrl"@);
    assert(e + a1 =~= a1);
    let a2 = replace_all(a1, "command"@, "super"@);
    assert(e + a1 =~= a1);
    lemma_replace_removes(e, a1, "command"@, "super"@);
    lemma_replace_keeps_free(e, a1, "command"@, "super"@, "control"@);
    assert(e + a2 =~= a2);
    let a3 = replace_all(a2, "meta"@, "super"@);
    lemma_replace_removes(e, a2, "meta"@, "super"@);
    lemma_replace_keeps_free(e, a2, "meta"@, "super"@, "control"@);
    lemma_replace_keeps_free(e, a2, "meta"@, "super"@, "command"@);
    assert(e + a3 =~= a3);
    let n = replace_all(a3, "win"@, "super"@);
    lemma_replace_removes(e, a3, "win"@, "super"@);
    lemma_replace_keeps_free(e, a3, "win"@, "super"@, "control"@);
    lemma_replace_keeps_free(e, a3, "win"@, "super"@, "command"@);
    lemma_replace_keeps_free(e, a3, "win"@, "super"@, "meta"@);
    assert(e + n =~= n);
    assert(n == normalize(h));
    // The normal form keeps its shape through the replacements.
    lemma_replace_keeps_shape(l, "control"@, "ctrl"@);
    lemma_replace_keeps_shape(a1, "command"@, "super"@);
    lemma_replace_keeps_shape(a2, "meta"@, "super"@);
    lemma_replace_keeps_shape(a3, "win"@, "super"@);
    lemma_normalize_ascii(h);
    // So it trims and lowers to itself, and has none of the patterns.
    if n.len() > 0 {
        lemma_trim_plain(n);
    } else {
        assert(trim(n) =~= n);
    }
    lemma_ascii_lower_fixed(n);
    assert(lowercase(trim(n)) == n);
    lemma_replace_free(n, "control"@, "ctrl"@);
    lemma_replace_free(n, "command"@, "super"@);
    lemma_replace_free(n, "meta"@, "super"@);
    lemma_replace_free(n, "win"@, "super"@);
}


// ---------------------------------------------------------------------------
// Raw tokens and normalized tokens
// ---------------------------------------------------------------------------

/// The renamings of `normalize`, in its order.
pub open spec fn renamed(s: Seq<char>) -> Seq<char> {
    replace_all(
        replace_all(
            replace_all(replace_all(s, "control"@, "ctrl"@), "command"@, "super"@),
            "meta"@,
            "super"@,
        ),
        "win"@,
        "super"@,
    )
}

/// A piece of a hotkey as it becomes a token: lowered, renamed, trimmed.
pub open spec fn lowered_token(p: Seq<char>) -> Seq<char> {
    trim(renamed(ascii_lower(p)))
}

/// The token that a raw `+`-separated piece of a hotkey stands for.
pub open spec fn piece_token(p: Seq<char>) -> Seq<char> {
    trim(normalize(p))
}

/// Whether `c` is no small ASCII letter; every renamed pattern and its
/// replacement is made of small letters.
pub open spec fn not_small_letter(c: char) -> bool {
    !('a' <= c <= 'z')
}

/// Every pattern and replacement of the renamings is made of small letters.
proof fn lemma_rename_letters()
    ensures
        forall|i: int| 0 <= i < "control"@.len() ==> 'a' <= #[trigger] "control"@[i] <= 'z',
        forall|i: int| 0 <= i < "command"@.len() ==> 'a' <= #[trigger] "command"@[i] <= 'z',
        forall|i: int| 0 <= i < "meta"@.len() ==> 'a' <= #[trigger] "meta"@[i] <= 'z',
        forall|i: int| 0 <= i < "win"@.len() ==> 'a' <= #[trigger] "win"@[i] <= 'z',
        forall|i: int| 0 <= i < "ctrl"@.len() ==> 'a' <= #[trigger] "ctrl"@[i] <= 'z',
        forall|i: int| 0 <= i < "super"@.len() ==> 'a' <= #[trigger] "super"@[i] <= 'z',
{
    reveal_strlit("control");
    reveal_strlit("command");
    reveal_strlit("meta");
    reveal_strlit("win");
    reveal_strlit("ctrl");
    reveal_strlit("super");
    assert forall|i: int| 0 <= i < "control"@.len() implies 'a' <= #[trigger] "control"@[i] <= 'z' by {
        assert(i == 0 || i == 1 || i == 2 || i == 3 || i == 4 || i == 5 || i == 6);
    }
    assert forall|i: int| 0 <= i < "command"@.len() implies 'a' <= #[trigger] "command"@[i] <= 'z' by {
        assert(i == 0 || i == 1 || i == 2 || i == 3 || i == 4 || i == 5 || i == 6);
    }
    assert forall|i: int| 0 <= i < "meta"@.len() implies 'a' <= #[trigger] "meta"@[i] <= 'z' by {
        assert(i == 0 || i == 1 || i == 2 || i == 3);
    }
    assert forall|i: int| 0 <= i < "win"@.len() implies 'a' <= #[trigger] "win"@[i] <= 'z' by {
        assert(i == 0 || i == 1 || i == 2);
    }
    assert forall|i: int| 0 <= i < "ctrl"@.len() implies 'a' <= #[trigger] "ctrl"@[i] <= 'z' by {
        assert(i == 0 || i == 1 || i == 2 || i == 3);
    }
    assert forall|i: int| 0 <= i < "super"@.len() implies 'a' <= #[trigger] "super"@[i] <= 'z' by {
        assert(i == 0 || i == 1 || i == 2 || i == 3 || i == 4);
    }
}

/// Appending a character that the pattern lacks appends it to the result.
proof fn lemma_replace_push(y: Seq<char>, c: char, p: Seq<char>, x: Seq<char>)
    requires
        p.len() > 0,
        forall|i: int| 0 <= i < p.len() ==> #[trigger] p[i] != c,
    ensures
        replace_all(y.push(c), p, x) == replace_all(y, p, x).push(c),
    decreases y.len(),
{
    let s = y.push(c);
    if p.len() <= s.len() && s.take(p.len() as int) == p {
        if p.len() <= y.len() {
            assert(y.take(p.len() as int) =~= s.take(p.len() as int));
            assert(s.skip(p.len() as int) =~= y.skip(p.len() as int).push(c));
            lemma_replace_push(y.skip(p.len() as int), c, p, x);
            assert(x + replace_all(y.skip(p.len() as int), p, x).push(c) =~= (x + replace_all(
                y.skip(p.len() as int),
                p,
                x,
            )).push(c));
        } else {
            assert(s.take(p.len() as int)[p.len() - 1] == c);
            assert(p[p.len() - 1] == c);
        }
    } else {
        if p.len() <= y.len() {
            assert(y.take(p.len() as int) =~= s.take(p.len() as int));
        }
        if y.len() == 0 {
            assert(s.drop_first() =~= y);
            assert(replace_all(y, p, x) =~= Seq::<char>::empty());
            assert(seq![c] + Seq::<char>::empty() =~= Seq::<char>::empty().push(c));
        } else {
            assert(s.drop_first() =~= y.drop_first().push(c));
            lemma_replace_push(y.drop_first(), c, p, x);
            assert(s[0] == y[0]);
            assert(seq![y[0]] + replace_all(y.drop_first(), p, x).push(c) =~= (seq![y[0]]
                + replace_all(y.drop_first(), p, x)).push(c));
        }
    }
}

/// Putting before the text a character that does not start the pattern puts
/// it before the result.
proof fn lemma_replace_prepend(c: char, y: Seq<char>, p: Seq<char>, x: Seq<char>)
    requires
        p.len() > 0,
        p[0] != c,
    ensures
        replace_all(seq![c] + y, p, x) == seq![c] + replace_all(y, p, x),
{
    let s = seq![c] + y;
    if p.len() <= s.len() && s.take(p.len() as int) == p {
        assert(s.take(p.len() as int)[0] == c);
    }
    assert(s.drop_first() =~= y);
    assert(s[0] == c);
}

/// The renamings commute with appending a character that is no small letter.
proof fn lemma_renamed_push(y: Seq<char>, c: char)
    requires
        not_small_letter(c),
    ensures
        renamed(y.push(c)) == renamed(y).push(c),
{
    reveal_strlit("control");
    reveal_strlit("command");
    reveal_strlit("meta");
    reveal_strlit("win");
    lemma_rename_letters();
    let a1 = replace_all(y, "control"@, "ctrl"@);
    lemma_replace_push(y, c, "control"@, "ctrl"@);
    let a2 = replace_all(a1, "command"@, "super"@);
    lemma_replace_push(a1, c, "command"@, "super"@);
    let a3 = replace_all(a2, "meta"@, "super"@);
    lemma_replace_push(a2, c, "meta"@, "super"@);
    lemma_replace_push(a3, c, "win"@, "super"@);
}

/// The renamings commute with putting first a character that is no small
/// letter.
proof fn lemma_renamed_prepend(c: char, y: Seq<char>)
    requires
        not_small_letter(c),
    ensures
        renamed(seq![c] + y) == seq![c] + renamed(y),
{
    reveal_strlit("control");
    reveal_strlit("command");
    reveal_strlit("meta");
    reveal_strlit("win");
    lemma_rename_letters();
    assert("control"@[0] != c);
    assert("command"@[0] != c);
    assert("meta"@[0] != c);
    assert("win"@[0] != c);
    let a1 = replace_all(y, "control"@, "ctrl"@);
    lemma_replace_prepend(c, y, "control"@, "ctrl"@);
    let a2 = replace_all(a1, "command"@, "super"@);
    lemma_replace_prepend(c, a1, "command"@, "super"@);
    let a3 = replace_all(a2, "meta"@, "super"@);
    lemma_replace_prepend(c, a2, "meta"@, "super"@);
    lemma_replace_prepend(c, a3, "win"@, "super"@);
}

/// White space put after a text is trimmed away with its own.
proof fn lemma_trim_start_push_space(z: Seq<char>, c: char)
    requires
        is_white_space(c),
    ensures
        trim_start(z.push(c)) == (if trim_start(z).len() == 0 {
            Seq::<char>::empty()
        } else {
            trim_start(z).push(c)
        }),
    decreases z.len(),
{
    if z.len() == 0 {
        assert(z.push(c)[0] == c);
        assert(z.push(c).drop_first() =~= Seq::<char>::empty());
        assert(trim_start(z.push(c)) == trim_start(z.push(c).drop_first()));
        assert(trim_start(Seq::<char>::empty()) == Seq::<char>::empty());
        assert(trim_start(z) == z);
    } else if is_white_space(z[0]) {
        assert(z.push(c)[0] == z[0]);
        assert(z.push(c).drop_first() =~= z.drop_first().push(c));
        lemma_trim_start_push_space(z.drop_first(), c);
    } else {
        assert(z.push(c)[0] == z[0]);
    }
}

proof fn lemma_trim_push_space(z: Seq<char>, c: char)
    requires
        is_white_space(c),
    ensures
        trim(z.push(c)) == trim(z),
{
    lemma_trim_start_push_space(z, c);
    let t = trim_start(z);
    if t.len() > 0 {
        assert(t.push(c).drop_last() =~= t);
        assert(t.push(c).last() == c);
    } else {
        assert(trim_end(t) =~= t);
    }
}

proof fn lemma_trim_prepend_space(c: char, z: Seq<char>)
    requires
        is_white_space(c),
    ensures
        trim(seq![c] + z) == trim(z),
{
    assert((seq![c] + z)[0] == c);
    assert((seq![c] + z).drop_first() =~= z);
}

/// White space at either end of a piece does not change its token.
proof fn lemma_lowered_token_spaces(c: char, q: Seq<char>)
    requires
        is_white_space(c),
    ensures
        lowered_token(seq![c] + q) == lowered_token(q),
        lowered_token(q.push(c)) == lowered_token(q),
{
    assert(ascii_lower(seq![c] + q) =~= seq![c] + ascii_lower(q));
    assert(ascii_lower(q.push(c)) =~= ascii_lower(q).push(c));
    lemma_renamed_prepend(c, ascii_lower(q));
    lemma_renamed_push(ascii_lower(q), c);
    lemma_trim_prepend_space(c, renamed(ascii_lower(q)));
    lemma_trim_push_space(renamed(ascii_lower(q)), c);
}

proof fn lemma_lowered_token_trim_start(s: Seq<char>)
    ensures
        lowered_token(trim_start(s)) == lowered_token(s),
    decreases s.len(),
{
    if s.len() > 0 && is_white_space(s[0]) {
        assert(seq![s[0]] + s.drop_first() =~= s);
        lemma_lowered_token_spaces(s[0], s.drop_first());
        lemma_lowered_token_trim_start(s.drop_first());
    }
}

proof fn lemma_lowered_token_trim_end(s: Seq<char>)
    ensures
        lowered_token(trim_end(s)) == lowered_token(s),
    decreases s.len(),
{
    if s.len() > 0 && is_white_space(s.last()) {
        assert(s.drop_last().push(s.last()) =~= s);
        lemma_lowered_token_spaces(s.last(), s.drop_last());
        lemma_lowered_token_trim_end(s.drop_last());
    }
}

/// On ASCII text the token of a piece is its lowered token.
proof fn lemma_piece_token_lowered(p: Seq<char>)
    requires
        is_ascii_text(p),
    ensures
        piece_token(p) == lowered_token(p),
{
    lemma_trim_keeps(p);
    assert(lowercase(trim(p)) == ascii_lower(trim(p)));
    assert(piece_token(p) == lowered_token(trim(p)));
    lemma_lowered_token_trim_end(trim_start(p));
    lemma_lowered_token_trim_start(p);
}

/// Putting a character other than `+` first puts it first in the first piece.
proof fn lemma_split_prepend(c: char, b: Seq<char>)
    requires
        c != '+',
    ensures
        split_on(seq![c] + b, '+') == split_on(b, '+').update(0, seq![c] + split_on(b, '+')[0]),
    decreases b.len(),
{
    lemma_split_nonempty(b);
    let s = seq![c] + b;
    if b.len() == 0 {
        assert(s =~= seq![c]);
        assert(s.drop_last() =~= Seq::<char>::empty());
        assert(s.last() == c);
        assert(Seq::<char>::empty().push(c) =~= seq![c] + Seq::<char>::empty());
        assert(split_on(Seq::<char>::empty(), '+') == seq![Seq::<char>::empty()]);
        assert(b =~= Seq::<char>::empty());
        let front = split_on(s.drop_last(), '+');
        assert(front == seq![Seq::<char>::empty()]);
        assert(split_on(s, '+') == front.update(0, front[0].push(c)));
        assert(split_on(s, '+') =~= split_on(b, '+').update(0, seq![c] + split_on(b, '+')[0]));
    } else {
        let b1 = b.drop_last();
        let d = b.last();
        lemma_split_prepend(c, b1);
        lemma_split_nonempty(b1);
        assert(s.drop_last() =~= seq![c] + b1);
        assert(s.last() == d);
        let f = split_on(b1, '+');
        let g = f.update(0, seq![c] + f[0]);
        if d == '+' {
            assert(split_on(s, '+') =~= split_on(b, '+').update(0, seq![c] + split_on(b, '+')[0]));
        } else if f.len() == 1 {
            assert((seq![c] + f[0]).push(d) =~= seq![c] + f[0].push(d));
            assert(split_on(s, '+') =~= split_on(b, '+').update(0, seq![c] + split_on(b, '+')[0]));
        } else {
            assert(split_on(b, '+')[0] == f[0]);
            assert(g.last() == f.last());
            assert(split_on(s, '+') =~= split_on(b, '+').update(0, seq![c] + split_on(b, '+')[0]));
        }
    }
}

/// Each piece lowered.
pub open spec fn lower_all(pieces: Seq<Seq<char>>) -> Seq<Seq<char>> {
    pieces.map_values(|p: Seq<char>| ascii_lower(p))
}

/// Each piece renamed.
pub open spec fn rename_all(pieces: Seq<Seq<char>>) -> Seq<Seq<char>> {
    pieces.map_values(|p: Seq<char>| renamed(p))
}

/// Lowering works piece by piece.
proof fn lemma_split_lower(s: Seq<char>)
    ensures
        split_on(ascii_lower(s), '+') == lower_all(split_on(s, '+')),
    decreases s.len(),
{
    lemma_split_nonempty(s);
    let l = ascii_lower(s);
    if s.len() == 0 {
        assert(l =~= s);
        assert(ascii_lower(Seq::<char>::empty()) =~= Seq::<char>::empty());
        assert(split_on(l, '+') =~= lower_all(split_on(s, '+')));
    } else {
        let s1 = s.drop_last();
        lemma_split_lower(s1);
        lemma_split_nonempty(s1);
        assert(l.drop_last() =~= ascii_lower(s1));
        assert(l.last() == ascii_lower_char(s.last()));
        let f = split_on(s1, '+');
        if s.last() == '+' {
            assert(ascii_lower(Seq::<char>::empty()) =~= Seq::<char>::empty());
            assert(split_on(l, '+') =~= lower_all(split_on(s, '+')));
        } else {
            assert(ascii_lower(f.last().push(s.last())) =~= ascii_lower(f.last()).push(
                ascii_lower_char(s.last()),
            ));
            assert(lower_all(f).last() == ascii_lower(f.last()));
            assert(split_on(l, '+') =~= lower_all(split_on(s, '+')));
        }
    }
}

/// Replacing with text without `+` in text without `+` makes none.
proof fn lemma_replace_no_plus(s: Seq<char>, p: Seq<char>, x: Seq<char>)
    requires
        !s.contains('+'),
        !x.contains('+'),
    ensures
        !replace_all(s, p, x).contains('+'),
    decreases s.len(),
{
    if s.len() > 0 {
        let r = replace_all(s, p, x);
        if 0 < p.len() <= s.len() && s.take(p.len() as int) == p {
            let rest = s.skip(p.len() as int);
            assert(!rest.contains('+')) by {
                if rest.contains('+') {
                    let k = choose|k: int| 0 <= k < rest.len() && rest[k] == '+';
                    assert(s[k + p.len()] == '+');
                }
            }
            lemma_replace_no_plus(rest, p, x);
            let t = replace_all(rest, p, x);
            assert(!r.contains('+')) by {
                if r.contains('+') {
                    let k = choose|k: int| 0 <= k < r.len() && r[k] == '+';
                    if k < x.len() {
                        assert(x[k] == '+');
                    } else {
                        assert(t[k - x.len()] == '+');
                    }
                }
            }
        } else {
            let rest = s.drop_first();
            assert(!rest.contains('+')) by {
                if rest.contains('+') {
                    let k = choose|k: int| 0 <= k < rest.len() && rest[k] == '+';
                    assert(s[k + 1] == '+');
                }
            }
            lemma_replace_no_plus(rest, p, x);
            let t = replace_all(rest, p, x);
            assert(!r.contains('+')) by {
                if r.contains('+') {
                    let k = choose|k: int| 0 <= k < r.len() && r[k] == '+';
                    if k == 0 {
                        assert(s[0] == '+');
                    } else {
                        assert(t[k - 1] == '+');
                    }
                }
            }
        }
    }
}

proof fn lemma_renamed_no_plus(s: Seq<char>)
    requires
        !s.contains('+'),
    ensures
        !renamed(s).contains('+'),
{
    lemma_rename_letters();
    assert(!"ctrl"@.contains('+'));
    assert(!"super"@.contains('+'));
    let a1 = replace_all(s, "control"@, "ctrl"@);
    lemma_replace_no_plus(s, "control"@, "ctrl"@);
    let a2 = replace_all(a1, "command"@, "super"@);
    lemma_replace_no_plus(a1, "command"@, "super"@);
    let a3 = replace_all(a2, "meta"@, "super"@);
    lemma_replace_no_plus(a2, "meta"@, "super"@);
    lemma_replace_no_plus(a3, "win"@, "super"@);
}

/// A replacement works piece by piece across a `+`, and keeps a text that
/// ends with `+` ending with `+`.
proof fn lemma_replace_concat_plus(a: Seq<char>, b: Seq<char>, p: Seq<char>, x: Seq<char>)
    requires
        p.len() > 0,
        forall|i: int| 0 <= i < p.len() ==> 'a' <= #[trigger] p[i] <= 'z',
        a.len() == 0 || a.last() == '+',
    ensures
        replace_all(a + b, p, x) == replace_all(a, p, x) + replace_all(b, p, x),
        replace_all(a, p, x).len() == 0 || replace_all(a, p, x).last() == '+',
{
    assert(!p.contains('+'));
    lemma_replace_concat(a, b, p, x);
    if a.len() > 0 {
        assert(a.drop_last().push('+') =~= a);
        lemma_replace_push(a.drop_last(), '+', p, x);
    } else {
        assert(replace_all(a, p, x) =~= Seq::<char>::empty());
    }
}

/// The renamings work piece by piece across a `+`.
proof fn lemma_renamed_concat(a: Seq<char>, b: Seq<char>)
    requires
        a.len() == 0 || a.last() == '+',
    ensures
        renamed(a + b) == renamed(a) + renamed(b),
{
    reveal_strlit("control");
    reveal_strlit("command");
    reveal_strlit("meta");
    reveal_strlit("win");
    lemma_rename_letters();
    lemma_replace_concat_plus(a, b, "control"@, "ctrl"@);
    let a1 = replace_all(a, "control"@, "ctrl"@);
    let b1 = replace_all(b, "control"@, "ctrl"@);
    lemma_replace_concat_plus(a1, b1, "command"@, "super"@);
    let a2 = replace_all(a1, "command"@, "super"@);
    let b2 = replace_all(b1, "command"@, "super"@);
    lemma_replace_concat_plus(a2, b2, "meta"@, "super"@);
    let a3 = replace_all(a2, "meta"@, "super"@);
    let b3 = replace_all(b2, "meta"@, "super"@);
    lemma_replace_concat_plus(a3, b3, "win"@, "super"@);
}

/// A text is its pieces joined by `+`.
proof fn lemma_join_split(s: Seq<char>)
    ensures
        plus_terminated(split_on(s, '+').drop_last()) + split_on(s, '+').last() == s,
    decreases s.len(),
{
    lemma_split_nonempty(s);
    if s.len() == 0 {
        assert(split_on(s, '+').drop_last() =~= Seq::<Seq<char>>::empty());
        assert(plus_terminated(Seq::<Seq<char>>::empty()) + Seq::<char>::empty() =~= s);
    } else {
        let s1 = s.drop_last();
        let c = s.last();
        let f = split_on(s1, '+');
        lemma_join_split(s1);
        lemma_split_nonempty(s1);
        assert(s1.push(c) =~= s);
        let a = plus_terminated(f.drop_last());
        assert(a + f.last().push(c) =~= (a + f.last()).push(c));
        if c == '+' {
            assert(split_on(s, '+').drop_last() =~= f);
            assert(plus_terminated(f) == plus_terminated(f.drop_last()) + f.last().push('+'));
            assert(plus_terminated(f) + Seq::<char>::empty() =~= s);
        } else {
            assert(split_on(s, '+').drop_last() =~= f.drop_last());
            assert(plus_terminated(f.drop_last()) + f.last().push(c) =~= s);
        }
    }
}

/// The words each followed by `+` are empty or end with `+`.
proof fn lemma_plus_terminated_end(words: Seq<Seq<char>>)
    ensures
        plus_terminated(words).len() == 0 || plus_terminated(words).last() == '+',
{
    if words.len() > 0 {
        let a = plus_terminated(words.drop_last());
        let w = words.last().push('+');
        assert((a + w).last() == w.last());
    }
}

/// Renaming the words each followed by `+` renames each word.
proof fn lemma_renamed_terminated(words: Seq<Seq<char>>)
    ensures
        renamed(plus_terminated(words)) == plus_terminated(rename_all(words)),
    decreases words.len(),
{
    if words.len() == 0 {
        assert(renamed(Seq::<char>::empty()) == Seq::<char>::empty());
        assert(rename_all(words) =~= Seq::<Seq<char>>::empty());
    } else {
        let front = words.drop_last();
        let w = words.last();
        lemma_renamed_terminated(front);
        lemma_plus_terminated_end(front);
        lemma_renamed_concat(plus_terminated(front), w.push('+'));
        lemma_renamed_push(w, '+');
        assert(rename_all(words).drop_last() =~= rename_all(front));
        assert(rename_all(words).last() == renamed(w));
    }
}

/// Renaming works piece by piece.
proof fn lemma_split_renamed(s: Seq<char>)
    ensures
        split_on(renamed(s), '+') == rename_all(split_on(s, '+')),
{
    let pieces = split_on(s, '+');
    lemma_split_nonempty(s);
    lemma_split_pieces(s);
    lemma_join_split(s);
    let front = pieces.drop_last();
    let last = pieces.last();
    lemma_plus_terminated_end(front);
    lemma_renamed_concat(plus_terminated(front), last);
    lemma_renamed_terminated(front);
    let rf = rename_all(front);
    assert forall|i: int| 0 <= i < rf.len() implies !(#[trigger] rf[i]).contains('+') by {
        assert(front[i] == pieces[i]);
        lemma_renamed_no_plus(front[i]);
    }
    assert(!last.contains('+')) by {
        assert(last == pieces[pieces.len() - 1]);
    }
    lemma_renamed_no_plus(last);
    lemma_split_terminated(rf, renamed(last));
    assert(rf.push(renamed(last)) =~= rename_all(pieces));
}

/// The lowered token of each piece.
pub open spec fn lowered_tokens(pieces: Seq<Seq<char>>) -> Seq<Seq<char>> {
    pieces.map_values(|p: Seq<char>| lowered_token(p))
}

/// Leading white space of the whole text changes no lowered token.
proof fn lemma_split_trim_start(h: Seq<char>)
    ensures
        lowered_tokens(split_on(trim_start(h), '+')) == lowered_tokens(split_on(h, '+')),
    decreases h.len(),
{
    if h.len() > 0 && is_white_space(h[0]) {
        let c = h[0];
        let y = h.drop_first();
        assert(seq![c] + y =~= h);
        lemma_split_prepend(c, y);
        lemma_split_nonempty(y);
        let f = split_on(y, '+');
        lemma_lowered_token_spaces(c, f[0]);
        assert(lowered_tokens(split_on(h, '+')) =~= lowered_tokens(f));
        lemma_split_trim_start(y);
    }
}

/// Trailing white space of the whole text changes no lowered token.
proof fn lemma_split_trim_end(h: Seq<char>)
    ensures
        lowered_tokens(split_on(trim_end(h), '+')) == lowered_tokens(split_on(h, '+')),
    decreases h.len(),
{
    if h.len() > 0 && is_white_space(h.last()) {
        let c = h.last();
        let y = h.drop_last();
        lemma_split_nonempty(y);
        let f = split_on(y, '+');
        assert(split_on(h, '+') == f.update(f.len() - 1, f.last().push(c)));
        lemma_lowered_token_spaces(c, f.last());
        assert(lowered_tokens(split_on(h, '+')) =~= lowered_tokens(f));
        lemma_split_trim_end(y);
    }
}

/// The tokens of an ASCII hotkey are the lowered tokens of its raw pieces.
proof fn lemma_tokens_lowered(h: Seq<char>)
    requires
        is_ascii_text(h),
    ensures
        hotkey_tokens(h) == lowered_tokens(split_on(h, '+')),
{
    let t = trim(h);
    lemma_trim_keeps(h);
    assert(normalize(h) == renamed(ascii_lower(t)));
    lemma_split_renamed(ascii_lower(t));
    lemma_split_lower(t);
    assert(hotkey_tokens(h) =~= lowered_tokens(split_on(t, '+')));
    lemma_split_trim_end(trim_start(h));
    lemma_split_trim_start(h);
}

/// Each token of an ASCII hotkey is the trimmed normal form of the raw piece
/// between `+` signs it comes from: the hotkey is read piece by piece.
pub proof fn lemma_tokens_of_raw_pieces(h: Seq<char>)
    requires
        is_ascii_text(h),
    ensures
        hotkey_tokens(h) == split_on(h, '+').map_values(|p: Seq<char>| piece_token(p)),
{
    lemma_tokens_lowered(h);
    lemma_split_pieces(h);
    let pieces = split_on(h, '+');
    assert forall|i: int| 0 <= i < pieces.len() implies lowered_token(#[trigger] pieces[i])
        == piece_token(pieces[i]) by {
        lemma_piece_token_lowered(pieces[i]);
    }
    assert(lowered_tokens(pieces) =~= pieces.map_values(|p: Seq<char>| piece_token(p)));
}

/// Sequences that hold the same items hold the same items once each is
/// mapped.
proof fn lemma_map_same_items(s1: Seq<Seq<char>>, s2: Seq<Seq<char>>)
    requires
        s1.to_multiset() == s2.to_multiset(),
    ensures
        s1.map_values(|p: Seq<char>| piece_token(p)).to_multiset() == s2.map_values(
            |p: Seq<char>| piece_token(p),
        ).to_multiset(),
    decreases s1.len(),
{
    broadcast use vstd::seq_lib::group_to_multiset_ensures;

    if s1.len() == 0 {
        assert(s2.len() == 0) by {
            vstd::seq_lib::to_multiset_len(s1);
            vstd::seq_lib::to_multiset_len(s2);
        }
        assert(s1.map_values(|p: Seq<char>| piece_token(p)) =~= s2.map_values(
            |p: Seq<char>| piece_token(p),
        ));
    } else {
        let a = s1.last();
        assert(s1.contains(a)) by {
            assert(s1[s1.len() - 1] == a);
        }
        vstd::seq_lib::to_multiset_contains(s1, a);
        vstd::seq_lib::to_multiset_contains(s2, a);
        let i = choose|i: int| 0 <= i < s2.len() && s2[i] == a;
        let r1 = s1.drop_last();
        let r2 = s2.remove(i);
        vstd::seq_lib::to_multiset_remove(s1, s1.len() - 1);
        vstd::seq_lib::to_multiset_remove(s2, i);
        assert(s1.remove(s1.len() - 1) =~= r1);
        lemma_map_same_items(r1, r2);
        let m1 = r1.map_values(|p: Seq<char>| piece_token(p));
        let m2 = r2.map_values(|p: Seq<char>| piece_token(p));
        assert(s1.map_values(|p: Seq<char>| piece_token(p)) =~= m1.push(piece_token(a)));
        assert(s2.map_values(|p: Seq<char>| piece_token(p)) =~= m2.insert(i, piece_token(a)));
        vstd::seq_lib::to_multiset_build(m1, piece_token(a));
        vstd::seq_lib::to_multiset_insert(m2, i, piece_token(a));
    }
}

/// Rearranging the raw `+`-separated pieces of an ASCII hotkey, as a user
/// writes it, leaves what it parses to as it is: `a+ctrl` reads as `ctrl+a`,
/// and a repeated modifier changes nothing. One of the two parses exactly
/// when the other does, and then to the same binding.
pub proof fn lemma_parse_ignores_raw_token_order(h1: Seq<char>, h2: Seq<char>)
    requires
        is_ascii_text(h1),
        is_ascii_text(h2),
        split_on(h1, '+').to_multiset() == split_on(h2, '+').to_multiset(),
    ensures
        parse_binding(h1) is Ok <==> parse_binding(h2) is Ok,
        parse_binding(h1) is Ok ==> parse_binding(h2) == parse_binding(h1),
{
    lemma_tokens_of_raw_pieces(h1);
    lemma_tokens_of_raw_pieces(h2);
    lemma_map_same_items(split_on(h1, '+'), split_on(h2, '+'));
    lemma_parse_ignores_token_order(h1, h2);
}

// ---------------------------------------------------------------------------
// Whether a binding is held, over the physical keys
// ---------------------------------------------------------------------------

/// Whether either of two physical keys is among the `pressed` keys.
pub open spec fn held_either(pressed: Seq<KeyCode>, a: KeyCode, b: KeyCode) -> bool {
    pressed.contains(a) || pressed.contains(b)
}

proof fn lemma_key_down_pair(vk: i32, a: KeyCode, b: KeyCode, pressed: Seq<KeyCode>)
    requires
        vk_keycodes(vk as u16) == seq![a, b],
    ensures
        key_down(vk, pressed) == held_either(pressed, a, b),
{
    let codes = seq![a, b];
    assert(codes[0] == a && codes[1] == b);
    if pressed.contains(a) {
        assert(codes.contains(a));
    }
    if pressed.contains(b) {
        assert(codes.contains(b));
    }
    if key_down(vk, pressed) {
        let k = choose|k: KeyCode| vk_keycodes(vk as u16).contains(k) && pressed.contains(k);
        let i = choose|i: int| 0 <= i < codes.len() && codes[i] == k;
        assert(i == 0 || i == 1);
    }
}

proof fn lemma_key_down_one(vk: i32, a: KeyCode, pressed: Seq<KeyCode>)
    requires
        vk_keycodes(vk as u16) == seq![a],
    ensures
        key_down(vk, pressed) == pressed.contains(a),
{
    let codes = seq![a];
    assert(codes[0] == a);
    if pressed.contains(a) {
        assert(codes.contains(a));
    }
    if key_down(vk, pressed) {
        let k = choose|k: KeyCode| vk_keycodes(vk as u16).contains(k) && pressed.contains(k);
        let i = choose|i: int| 0 <= i < codes.len() && codes[i] == k;
        assert(i == 0);
    }
}

/// A binding is held exactly when each of its modifiers is held, on the left
/// or the right, if and only if the binding names it, and its main key is
/// down: a Control, Alt, Shift or Windows key that the binding does not name
/// keeps it from firing, as does one that it names and that is not held.
pub proof fn lemma_binding_held_exactly(b: BindingView, pressed: Seq<KeyCode>)
    ensures
        binding_pressed(b, pressed) <==> ({
            &&& held_either(pressed, KeyCode::LControl, KeyCode::RControl) == b.ctrl
            &&& held_either(pressed, KeyCode::LAlt, KeyCode::RAlt) == b.alt
            &&& held_either(pressed, KeyCode::LShift, KeyCode::RShift) == b.shift
            &&& held_either(pressed, KeyCode::LMeta, KeyCode::RMeta) == b.super_key
            &&& key_down(b.main_vk, pressed)
        }),
{
    lemma_key_down_pair(0x11, KeyCode::LControl, KeyCode::RControl, pressed);
    lemma_key_down_pair(0x12, KeyCode::LAlt, KeyCode::RAlt, pressed);
    lemma_key_down_pair(0x10, KeyCode::LShift, KeyCode::RShift, pressed);
    lemma_key_down_one(0x5B, KeyCode::LMeta, pressed);
    lemma_key_down_one(0x5C, KeyCode::RMeta, pressed);
}

// ---------------------------------------------------------------------------
// Keys named by a letter or a digit
// ---------------------------------------------------------------------------

/// The physical key that a small letter or a digit names.
pub open spec fn char_key(c: char) -> Option<KeyCode> {
    match c {
        'a' => Some(KeyCode::A),
        'b' => Some(KeyCode::B),
        'c' => Some(KeyCode::C),
        'd' => Some(KeyCode::D),
        'e' => Some(KeyCode::E),
        'f' => Some(KeyCode::F),
        'g' => Some(KeyCode::G),
        'h' => Some(KeyCode::H),
        'i' => Some(KeyCode::I),
        'j' => Some(KeyCode::J),
        'k' => Some(KeyCode::K),
        'l' => Some(KeyCode::L),
        'm' => Some(KeyCode::M),
        'n' => Some(KeyCode::N),
        'o' => Some(KeyCode::O),
        'p' => Some(KeyCode::P),
        'q' => Some(KeyCode::Q),
        'r' => Some(KeyCode::R),
        's' => Some(KeyCode::S),
        't' => Some(KeyCode::T),
        'u' => Some(KeyCode::U),
        'v' => Some(KeyCode::V),
        'w' => Some(KeyCode::W),
        'x' => Some(KeyCode::X),
        'y' => Some(KeyCode::Y),
        'z' => Some(KeyCode::Z),
        '0' => Some(KeyCode::Key0),
        '1' => Some(KeyCode::Key1),
        '2' => Some(KeyCode::Key2),
        '3' => Some(KeyCode::Key3),
        '4' => Some(KeyCode::Key4),
        '5' => Some(KeyCode::Key5),
        '6' => Some(KeyCode::Key6),
        '7' => Some(KeyCode::Key7),
        '8' => Some(KeyCode::Key8),
        '9' => Some(KeyCode::Key9),
        _ => None,
    }
}

/// No word or sign of the alias table is a single letter or digit.
proof fn lemma_alias_not_letter_or_digit(name: Seq<char>)
    requires
        name.len() == 1,
        'a' <= name[0] <= 'z' || '0' <= name[0] <= '9',
    ensures
        key_alias(name) is None,
{
    reveal_strlit("<");
    reveal_strlit(">");
    reveal_strlit("intlbackslash");
    reveal_strlit("oem102");
    reveal_strlit("nonusbackslash");
    reveal_strlit("space");
    reveal_strlit("spacebar");
    reveal_strlit("tab");
    reveal_strlit("enter");
    reveal_strlit("backspace");
    reveal_strlit("delete");
    reveal_strlit("insert");
    reveal_strlit("home");
    reveal_strlit("end");
    reveal_strlit("pageup");
    reveal_strlit("pagedown");
    reveal_strlit("up");
    reveal_strlit("down");
    reveal_strlit("left");
    reveal_strlit("right");
    reveal_strlit("esc");
    reveal_strlit("escape");
    reveal_strlit("/");
    reveal_strlit("slash");
    reveal_strlit("\\");
    reveal_strlit("backslash");
    reveal_strlit(";");
    reveal_strlit("semicolon");
    reveal_strlit("'");
    reveal_strlit("quote");
    reveal_strlit("[");
    reveal_strlit("bracketleft");
    reveal_strlit("]");
    reveal_strlit("bracketright");
    reveal_strlit("-");
    reveal_strlit("minus");
    reveal_strlit("=");
    reveal_strlit("equal");
    reveal_strlit("`");
    reveal_strlit("backquote");
    reveal_strlit(",");
    reveal_strlit("comma");
    reveal_strlit(".");
    reveal_strlit("period");
}

/// A small letter or a digit, written as a hotkey's main key, is read as
/// itself, with a code whose physical key is the key of that letter or digit.
pub proof fn lemma_letter_and_digit_keys(c: char, original: Seq<char>)
    requires
        char_key(c) is Some,
    ensures
        main_key(seq![c], original) is Ok,
        (main_key(seq![c], original)->Ok_0).1 == seq![c],
        vk_keycodes((main_key(seq![c], original)->Ok_0).0 as u16) == seq![char_key(c)->0],
{
    reveal_strlit("<");
    reveal_strlit(">");
    reveal_strlit("/");
    reveal_strlit("\\");
    reveal_strlit(";");
    reveal_strlit("'");
    reveal_strlit("[");
    reveal_strlit("]");
    reveal_strlit("-");
    reveal_strlit("=");
    reveal_strlit("`");
    reveal_strlit(",");
    reveal_strlit(".");
    let name = seq![c];
    assert(name[0] == c);
    lemma_alias_not_letter_or_digit(name);
    assert(function_key(name) is None) by {
        if c == 'f' {
            assert(name.drop_first() =~= Seq::<char>::empty());
        }
    }
    crate::text::lemma_utf8_len_one(name);
    let vk: i32 = if 'a' <= c <= 'z' { ((c as i32) - 32) as i32 } else { c as i32 };
    assert(single_char_key(name) == Some(vk));
    lemma_single_key_reads_back(vk, name);
    assert(ascii_lower(name) =~= name);
    assert(main_key(name, original) == Ok::<(i32, Seq<char>), Seq<char>>((vk, name)));
}

// ---------------------------------------------------------------------------
// Keys named by a word or a sign
// ---------------------------------------------------------------------------

/// The keys a hotkey can name by a word or a sign: for each spelling, in
/// lower case, the virtual-key code it stands for, the name written back for
/// it, and the physical keys of that code (none for the ISO key next to left
/// Shift, which the keyboard reader does not report).
pub open spec fn named_key_row(l: Seq<char>) -> Option<(i32, Seq<char>, Seq<KeyCode>)> {
    if l == "<"@ || l == ">"@ || l == "intlbackslash"@ || l == "oem102"@ || l == "nonusbackslash"@ {
        Some((0xE2, "IntlBackslash"@, Seq::<KeyCode>::empty()))
    } else if l == "space"@ || l == "spacebar"@ {
        Some((0x20, "space"@, seq![KeyCode::Space]))
    } else if l == "tab"@ {
        Some((0x09, "tab"@, seq![KeyCode::Tab]))
    } else if l == "enter"@ {
        Some((0x0D, "enter"@, seq![KeyCode::Enter]))
    } else if l == "backspace"@ {
        Some((0x08, "backspace"@, seq![KeyCode::Backspace]))
    } else if l == "delete"@ {
        Some((0x2E, "delete"@, seq![KeyCode::Delete]))
    } else if l == "insert"@ {
        Some((0x2D, "insert"@, seq![KeyCode::Insert]))
    } else if l == "home"@ {
        Some((0x24, "home"@, seq![KeyCode::Home]))
    } else if l == "end"@ {
        Some((0x23, "end"@, seq![KeyCode::End]))
    } else if l == "pageup"@ {
        Some((0x21, "pageup"@, seq![KeyCode::PageUp]))
    } else if l == "pagedown"@ {
        Some((0x22, "pagedown"@, seq![KeyCode::PageDown]))
    } else if l == "up"@ {
        Some((0x26, "up"@, seq![KeyCode::Up]))
    } else if l == "down"@ {
        Some((0x28, "down"@, seq![KeyCode::Down]))
    } else if l == "left"@ {
        Some((0x25, "left"@, seq![KeyCode::Left]))
    } else if l == "right"@ {
        Some((0x27, "right"@, seq![KeyCode::Right]))
    } else if l == "esc"@ || l == "escape"@ {
        Some((0x1B, "escape"@, seq![KeyCode::Escape]))
    } else if l == "/"@ || l == "slash"@ {
        Some((0xBF, "/"@, seq![KeyCode::Slash]))
    } else if l == "\\"@ || l == "backslash"@ {
        Some((0xDC, "\\"@, seq![KeyCode::BackSlash]))
    } else if l == ";"@ || l == "semicolon"@ {
        Some((0xBA, ";"@, seq![KeyCode::Semicolon]))
    } else if l == "'"@ || l == "quote"@ {
        Some((0xDE, "'"@, seq![KeyCode::Apostrophe]))
    } else if l == "["@ || l == "bracketleft"@ {
        Some((0xDB, "["@, seq![KeyCode::LeftBracket]))
    } else if l == "]"@ || l == "bracketright"@ {
        Some((0xDD, "]"@, seq![KeyCode::RightBracket]))
    } else if l == "-"@ || l == "minus"@ {
        Some((0xBD, "-"@, seq![KeyCode::Minus]))
    } else if l == "="@ || l == "equal"@ {
        Some((0xBB, "="@, seq![KeyCode::Equal]))
    } else if l == "`"@ || l == "backquote"@ {
        Some((0xC0, "`"@, seq![KeyCode::Grave]))
    } else if l == ","@ || l == "comma"@ {
        Some((0xBC, ","@, seq![KeyCode::Comma]))
    } else if l == "."@ || l == "period"@ {
        Some((0xBE, "."@, seq![KeyCode::Dot]))
    } else {
        None
    }
}

/// Text of small letters and signs: ASCII, no capital, no `+`, no white space.
pub open spec fn small_plain(s: Seq<char>) -> bool
    decreases s.len(),
{
    s.len() == 0 || (s[0] <= '\u{7f}' && s[0] != '+' && !is_white_space(s[0]) && !('A' <= s[0]
        <= 'Z') && small_plain(s.drop_first()))
}

proof fn lemma_small_plain(s: Seq<char>)
    requires
        small_plain(s),
    ensures
        plain_text(s),
        ascii_lower(s) == s,
    decreases s.len(),
{
    if s.len() > 0 {
        lemma_small_plain(s.drop_first());
        assert(ascii_lower(s) =~= seq![ascii_lower_char(s[0])] + ascii_lower(s.drop_first()));
        assert(seq![s[0]] + s.drop_first() =~= s);
    } else {
        assert(ascii_lower(s) =~= s);
    }
}

/// Every spelling of a named key, written as a hotkey's main key, is read as
/// that key: with the code and the written name of the table, and that code
/// stands for the table's physical keys. So a word and its sign (such as
/// `bracketright` and `]`) name the same key, and each name is held down by
/// the key of that name (`pageup` by Page Up).
#[verifier::spinoff_prover]
#[verifier::rlimit(100)]
pub proof fn lemma_named_keys(l: Seq<char>, original: Seq<char>)
    requires
        named_key_row(l) is Some,
    ensures
        main_key(l, original) == Ok::<(i32, Seq<char>), Seq<char>>(
            ((named_key_row(l)->0).0, (named_key_row(l)->0).1),
        ),
        vk_keycodes((named_key_row(l)->0).0 as u16) == (named_key_row(l)->0).2,
{
    reveal_strlit("'");
    reveal_strlit(",");
    reveal_strlit("-");
    reveal_strlit(".");
    reveal_strlit("/");
    reveal_strlit(";");
    reveal_strlit("<");
    reveal_strlit("=");
    reveal_strlit(">");
    reveal_strlit("IntlBackslash");
    reveal_strlit("[");
    reveal_strlit("\\");
    reveal_strlit("]");
    reveal_strlit("`");
    reveal_strlit("backquote");
    reveal_strlit("backslash");
    reveal_strlit("backspace");
    reveal_strlit("bracketleft");
    reveal_strlit("bracketright");
    reveal_strlit("comma");
    reveal_strlit("delete");
    reveal_strlit("down");
    reveal_strlit("end");
    reveal_strlit("enter");
    reveal_strlit("equal");
    reveal_strlit("esc");
    reveal_strlit("escape");
    reveal_strlit("home");
    reveal_strlit("insert");
    reveal_strlit("intlbackslash");
    reveal_strlit("left");
    reveal_strlit("minus");
    reveal_strlit("nonusbackslash");
    reveal_strlit("oem102");
    reveal_strlit("pagedown");
    reveal_strlit("pageup");
    reveal_strlit("period");
    reveal_strlit("quote");
    reveal_strlit("right");
    reveal_strlit("semicolon");
    reveal_strlit("slash");
    reveal_strlit("space");
    reveal_strlit("spacebar");
    reveal_strlit("tab");
    reveal_strlit("up");
    reveal_with_fuel(small_plain, 16);
    assert(small_plain(l));
    assert(l.len() > 0);
    lemma_small_plain(l);
    lemma_plain_text(l);
    lemma_trim_plain(l);
    assert(lowercase(trim(l)) == l);
    assert(key_alias(l) == Some(((named_key_row(l)->0).0, (named_key_row(l)->0).1)));
}

// ---------------------------------------------------------------------------
// Function keys
// ---------------------------------------------------------------------------

/// The physical key of the function key with number `n` (none for F21 to
/// F24, which the keyboard reader does not report).
pub open spec fn function_key_keys(n: i32) -> Seq<KeyCode> {
    match n {
        1 => seq![KeyCode::F1],
        2 => seq![KeyCode::F2],
        3 => seq![KeyCode::F3],
        4 => seq![KeyCode::F4],
        5 => seq![KeyCode::F5],
        6 => seq![KeyCode::F6],
        7 => seq![KeyCode::F7],
        8 => seq![KeyCode::F8],
        9 => seq![KeyCode::F9],
        10 => seq![KeyCode::F10],
        11 => seq![KeyCode::F11],
        12 => seq![KeyCode::F12],
        13 => seq![KeyCode::F13],
        14 => seq![KeyCode::F14],
        15 => seq![KeyCode::F15],
        16 => seq![KeyCode::F16],
        17 => seq![KeyCode::F17],
        18 => seq![KeyCode::F18],
        19 => seq![KeyCode::F19],
        20 => seq![KeyCode::F20],
        _ => Seq::<KeyCode>::empty(),
    }
}

/// A function key name `f<n>` stands for a code whose physical key is the
/// function key with that number.
pub proof fn lemma_function_key_codes(lower: Seq<char>)
    requires
        function_key(lower) is Some,
    ensures
        crate::text::parse_i32(lower.drop_first()) is Some,
        vk_keycodes((function_key(lower)->0) as u16) == function_key_keys(
            crate::text::parse_i32(lower.drop_first())->0,
        ),
{
    let n = crate::text::parse_i32(lower.drop_first())->0;
    assert(1 <= n <= 24);
    assert(n == 1 || n == 2 || n == 3 || n == 4 || n == 5 || n == 6 || n == 7 || n == 8 || n == 9
        || n == 10 || n == 11 || n == 12 || n == 13 || n == 14 || n == 15 || n == 16 || n == 17
        || n == 18 || n == 19 || n == 20 || n == 21 || n == 22 || n == 23 || n == 24);
}

} // verus!
