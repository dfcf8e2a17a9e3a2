//! Hotkey strings: normalizing, parsing into a binding, formatting a binding
//! back, and deciding whether a binding is held down.
use vstd::prelude::*;
use crate::keys::{
    key_down, KeyCode, VK_BACK, VK_CONTROL, VK_DELETE, VK_DOWN, VK_END, VK_ESCAPE, VK_F1, VK_HOME,
    VK_INSERT, VK_LEFT, VK_LWIN, VK_MENU, VK_NEXT, VK_OEM_1, VK_OEM_102, VK_OEM_2, VK_OEM_3,
    VK_OEM_4, VK_OEM_5, VK_OEM_6, VK_OEM_7, VK_OEM_COMMA, VK_OEM_MINUS, VK_OEM_PERIOD,
    VK_OEM_PLUS, VK_PRIOR, VK_RETURN, VK_RIGHT, VK_RWIN, VK_SHIFT, VK_SPACE, VK_TAB, VK_UP,
};
use crate::text::{
    lowercase, parse_i32, parse_i32_str, replace_all, replace_str, split_on, split_str, str_eq,
    to_lowercase, trim, trim_str, utf8_len, utf8_len_at_most,
};

verus! {

// ---------------------------------------------------------------------------
// Normalizing
// ---------------------------------------------------------------------------

/// A hotkey string brought to its normal form: trimmed, lower case, and with
/// `control` spelled `ctrl` and `command`, `meta` and `win` spelled `super`,
/// the replacements made in that order.
pub open spec fn normalize(value: Seq<char>) -> Seq<char> {
    replace_all(
        replace_all(
            replace_all(
                replace_all(lowercase(trim(value)), "control"@, "ctrl"@),
                "command"@,
                "super"@,
            ),
            "meta"@,
            "super"@,
        ),
        "win"@,
        "super"@,
    )
}

/// The normal form of a hotkey string.
pub fn normalize_hotkey(value: &str) -> (r: String)
    ensures
        r@ == normalize(value@),
{
    proof {
        reveal_strlit("control");
        reveal_strlit("command");
        reveal_strlit("meta");
        reveal_strlit("win");
    }
    let lower = to_lowercase(trim_str(value));
    let a = replace_str(lower.as_str(), "control", "ctrl");
    let b = replace_str(a.as_str(), "command", "super");
    let c = replace_str(b.as_str(), "meta", "super");
    replace_str(c.as_str(), "win", "super")
}

// ---------------------------------------------------------------------------
// The main key
// ---------------------------------------------------------------------------

/// The named keys: a lower-case name or alias, mapped to the virtual-key code
/// and the name under which the key is written back.
pub open spec fn key_alias(lower: Seq<char>) -> Option<(i32, Seq<char>)> {
    if lower == "<"@ || lower == ">"@ || lower == "intlbackslash"@ || lower == "oem102"@ || lower
        == "nonusbackslash"@ {
        Some((VK_OEM_102 as i32, "IntlBackslash"@))
    } else if lower == "space"@ || lower == "spacebar"@ {
        Some((VK_SPACE as i32, "space"@))
    } else if lower == "tab"@ {
        Some((VK_TAB as i32, "tab"@))
    } else if lower == "enter"@ {
        Some((VK_RETURN as i32, "enter"@))
    } else if lower == "backspace"@ {
        Some((VK_BACK as i32, "backspace"@))
    } else if lower == "delete"@ {
        Some((VK_DELETE as i32, "delete"@))
    } else if lower == "insert"@ {
        Some((VK_INSERT as i32, "insert"@))
    } else if lower == "home"@ {
        Some((VK_HOME as i32, "home"@))
    } else if lower == "end"@ {
        Some((VK_END as i32, "end"@))
    } else if lower == "pageup"@ {
        Some((VK_PRIOR as i32, "pageup"@))
    } else if lower == "pagedown"@ {
        Some((VK_NEXT as i32, "pagedown"@))
    } else if lower == "up"@ {
        Some((VK_UP as i32, "up"@))
    } else if lower == "down"@ {
        Some((VK_DOWN as i32, "down"@))
    } else if lower == "left"@ {
        Some((VK_LEFT as i32, "left"@))
    } else if lower == "right"@ {
        Some((VK_RIGHT as i32, "right"@))
    } else if lower == "esc"@ || lower == "escape"@ {
        Some((VK_ESCAPE as i32, "escape"@))
    } else if lower == "/"@ || lower == "slash"@ {
        Some((VK_OEM_2 as i32, "/"@))
    } else if lower == "\\"@ || lower == "backslash"@ {
        Some((VK_OEM_5 as i32, "\\"@))
    } else if lower == ";"@ || lower == "semicolon"@ {
        Some((VK_OEM_1 as i32, ";"@))
    } else if lower == "'"@ || lower == "quote"@ {
        Some((VK_OEM_7 as i32, "'"@))
    } else if lower == "["@ || lower == "bracketleft"@ {
        Some((VK_OEM_4 as i32, "["@))
    } else if lower == "]"@ || lower == "bracketright"@ {
        Some((VK_OEM_6 as i32, "]"@))
    } else if lower == "-"@ || lower == "minus"@ {
        Some((VK_OEM_MINUS as i32, "-"@))
    } else if lower == "="@ || lower == "equal"@ {
        Some((VK_OEM_PLUS as i32, "="@))
    } else if lower == "`"@ || lower == "backquote"@ {
        Some((VK_OEM_3 as i32, "`"@))
    } else if lower == ","@ || lower == "comma"@ {
        Some((VK_OEM_COMMA as i32, ","@))
    } else if lower == "."@ || lower == "period"@ {
        Some((VK_OEM_PERIOD as i32, "."@))
    } else {
        None
    }
}

/// A function key: `f` and a number from 1 to 24 as `str::parse::<i32>` reads
/// it, the whole at most three bytes long. Gives the virtual-key code.
pub open spec fn function_key(lower: Seq<char>) -> Option<i32> {
    if lower.len() > 0 && lower[0] == 'f' && utf8_len(lower) <= 3 {
        match parse_i32(lower.drop_first()) {
            Some(n) => if 1 <= n <= 24 {
                Some((VK_F1 as i32 + (n - 1)) as i32)
            } else {
                None
            },
            None => None,
        }
    } else {
        None
    }
}

/// What follows `prefix` in `lower`, where that is exactly one byte long.
pub open spec fn prefixed_key(lower: Seq<char>, prefix: Seq<char>) -> Option<Seq<char>> {
    if prefix.len() <= lower.len() && lower.take(prefix.len() as int) == prefix && utf8_len(
        lower.skip(prefix.len() as int),
    ) == 1 {
        Some(lower.skip(prefix.len() as int))
    } else {
        None
    }
}

/// A one-byte key: a small letter gives the code of its capital, a digit its
/// own code.
pub open spec fn single_char_key(lower: Seq<char>) -> Option<i32> {
    if utf8_len(lower) == 1 {
        let c = lower[0];
        if 'a' <= c <= 'z' {
            Some(((c as i32) - 32) as i32)
        } else if '0' <= c <= '9' {
            Some(c as i32)
        } else {
            None
        }
    } else {
        None
    }
}

/// Whether `token` is a single ASCII character.
pub open spec fn is_single_ascii(token: Seq<char>) -> bool {
    token.len() == 1 && token[0] <= '\u{7f}'
}

/// The message for a key that is not recognized.
pub open spec fn unrecognized_key_message(token: Seq<char>, original: Seq<char>) -> Seq<char> {
    "Couldn't recognize '"@ + token + "' as a valid key in '"@ + original + "'"@
}

/// A single ASCII character lowers to at most one character, so no prefix of
/// two or more characters is followed in it by a further key.
pub proof fn lemma_single_ascii_not_prefixed(token: Seq<char>, prefix: Seq<char>)
    requires
        is_single_ascii(token),
        prefix.len() >= 1,
    ensures
        prefixed_key(lowercase(trim(token)), prefix) is None,
{
    crate::text::lemma_trim_single(token);
    let t = trim(token);
    assert(crate::text::is_ascii_text(t)) by {
        if t.len() == 1 {
            assert(t[0] == token[0]);
        }
    }
    let lower = lowercase(t);
    assert(lower.len() <= 1);
    if prefixed_key(lower, prefix) is Some {
        crate::text::lemma_utf8_len_one(lower.skip(prefix.len() as int));
    }
}

/// The measure by which the main-key parse descends: a single ASCII character
/// is parsed without a further descent.
pub open spec fn main_key_measure(token: Seq<char>) -> nat {
    if is_single_ascii(token) {
        0
    } else {
        1
    }
}

/// What `parse_hotkey_main_key` gives back for `token`, where `original` is the
/// whole hotkey string, quoted in the error. The token is trimmed and lowered,
/// then read, in this order, as a named key, a function key, `key` or `digit`
/// followed by one byte (read again as a token of its own), or a single letter
/// or digit.
pub open spec fn main_key(token: Seq<char>, original: Seq<char>) -> Result<
    (i32, Seq<char>),
    Seq<char>,
>
    decreases main_key_measure(token),
{
    let lower = lowercase(trim(token));
    if key_alias(lower) is Some {
        Ok(key_alias(lower)->0)
    } else if function_key(lower) is Some {
        Ok((function_key(lower)->0, lower))
    } else if prefixed_key(lower, "key"@) is Some {
        proof {
            reveal_strlit("key");
            if is_single_ascii(token) {
                lemma_single_ascii_not_prefixed(token, "key"@);
            }
            crate::text::lemma_utf8_len_one(prefixed_key(lower, "key"@)->0);
        }
        main_key(prefixed_key(lower, "key"@)->0, original)
    } else if prefixed_key(lower, "digit"@) is Some {
        proof {
            reveal_strlit("digit");
            if is_single_ascii(token) {
                lemma_single_ascii_not_prefixed(token, "digit"@);
            }
            crate::text::lemma_utf8_len_one(prefixed_key(lower, "digit"@)->0);
        }
        main_key(prefixed_key(lower, "digit"@)->0, original)
    } else if single_char_key(lower) is Some {
        Ok((single_char_key(lower)->0, lower))
    } else {
        Err(unrecognized_key_message(token, original))
    }
}


/// The named key that `lower` spells, with its code and written name.
fn lookup_alias(lower: &str) -> (r: Option<(i32, String)>)
    ensures
        match r {
            Some((vk, name)) => key_alias(lower@) == Some((vk, name@)),
            None => key_alias(lower@) is None,
        },
{
    if str_eq(lower, "<") || str_eq(lower, ">") || str_eq(lower, "intlbackslash") || str_eq(lower, "oem102") || str_eq(lower, "nonusbackslash") {
        Some((VK_OEM_102 as i32, "IntlBackslash".to_owned()))
    } else if str_eq(lower, "space") || str_eq(lower, "spacebar") {
        Some((VK_SPACE as i32, "space".to_owned()))
    } else if str_eq(lower, "tab") {
        Some((VK_TAB as i32, "tab".to_owned()))
    } else if str_eq(lower, "enter") {
        Some((VK_RETURN as i32, "enter".to_owned()))
    } else if str_eq(lower, "backspace") {
        Some((VK_BACK as i32, "backspace".to_owned()))
    } else if str_eq(lower, "delete") {
        Some((VK_DELETE as i32, "delete".to_owned()))
    } else if str_eq(lower, "insert") {
        Some((VK_INSERT as i32, "insert".to_owned()))
    } else if str_eq(lower, "home") {
        Some((VK_HOME as i32, "home".to_owned()))
    } else if str_eq(lower, "end") {
        Some((VK_END as i32, "end".to_owned()))
    } else if str_eq(lower, "pageup") {
        Some((VK_PRIOR as i32, "pageup".to_owned()))
    } else if str_eq(lower, "pagedown") {
        Some((VK_NEXT as i32, "pagedown".to_owned()))
    } else if str_eq(lower, "up") {
        Some((VK_UP as i32, "up".to_owned()))
    } else if str_eq(lower, "down") {
        Some((VK_DOWN as i32, "down".to_owned()))
    } else if str_eq(lower, "left") {
        Some((VK_LEFT as i32, "left".to_owned()))
    } else if str_eq(lower, "right") {
        Some((VK_RIGHT as i32, "right".to_owned()))
    } else if str_eq(lower, "esc") || str_eq(lower, "escape") {
        Some((VK_ESCAPE as i32, "escape".to_owned()))
    } else if str_eq(lower, "/") || str_eq(lower, "slash") {
        Some((VK_OEM_2 as i32, "/".to_owned()))
    } else if str_eq(lower, "\\") || str_eq(lower, "backslash") {
        Some((VK_OEM_5 as i32, "\\".to_owned()))
    } else if str_eq(lower, ";") || str_eq(lower, "semicolon") {
        Some((VK_OEM_1 as i32, ";".to_owned()))
    } else if str_eq(lower, "'") || str_eq(lower, "quote") {
        Some((VK_OEM_7 as i32, "'".to_owned()))
    } else if str_eq(lower, "[") || str_eq(lower, "bracketleft") {
        Some((VK_OEM_4 as i32, "[".to_owned()))
    } else if str_eq(lower, "]") || str_eq(lower, "bracketright") {
        Some((VK_OEM_6 as i32, "]".to_owned()))
    } else if str_eq(lower, "-") || str_eq(lower, "minus") {
        Some((VK_OEM_MINUS as i32, "-".to_owned()))
    } else if str_eq(lower, "=") || str_eq(lower, "equal") {
        Some((VK_OEM_PLUS as i32, "=".to_owned()))
    } else if str_eq(lower, "`") || str_eq(lower, "backquote") {
        Some((VK_OEM_3 as i32, "`".to_owned()))
    } else if str_eq(lower, ",") || str_eq(lower, "comma") {
        Some((VK_OEM_COMMA as i32, ",".to_owned()))
    } else if str_eq(lower, ".") || str_eq(lower, "period") {
        Some((VK_OEM_PERIOD as i32, ".".to_owned()))
    } else {
        None
    }
}

/// The code of the function key that `lower` spells.
fn lookup_function_key(lower: &str) -> (r: Option<i32>)
    ensures
        r == function_key(lower@),
{
    let n = lower.unicode_len();
    if n == 0 || lower.get_char(0) != 'f' || !utf8_len_at_most(lower, 3) {
        return None;
    }
    let rest = lower.substring_char(1, n);
    assert(rest@ =~= lower@.drop_first());
    match parse_i32_str(rest) {
        Some(number) => if 1 <= number && number <= 24 {
            Some(VK_F1 as i32 + (number - 1))
        } else {
            None
        },
        None => None,
    }
}

/// Whether `s` is exactly one byte long in UTF-8.
fn is_one_byte(s: &str) -> (r: bool)
    ensures
        r == (utf8_len(s@) == 1),
{
    proof {
        crate::text::lemma_utf8_len_one(s@);
    }
    s.unicode_len() == 1 && utf8_len_at_most(s, 1)
}

/// What follows `prefix` in `lower`, where that is one byte long.
fn strip_key_prefix<'a>(lower: &'a str, prefix: &str) -> (r: Option<&'a str>)
    ensures
        match r {
            Some(rest) => prefixed_key(lower@, prefix@) == Some(rest@),
            None => prefixed_key(lower@, prefix@) is None,
        },
{
    let n = lower.unicode_len();
    let m = prefix.unicode_len();
    if m > n {
        return None;
    }
    let head = lower.substring_char(0, m);
    assert(head@ =~= lower@.take(m as int));
    if !str_eq(head, prefix) {
        return None;
    }
    let rest = lower.substring_char(m, n);
    assert(rest@ =~= lower@.skip(m as int));
    if is_one_byte(rest) {
        Some(rest)
    } else {
        None
    }
}

/// The code of the single letter or digit that `lower` is.
fn lookup_single_char(lower: &str) -> (r: Option<i32>)
    ensures
        r == single_char_key(lower@),
{
    if !is_one_byte(lower) {
        return None;
    }
    proof {
        crate::text::lemma_utf8_len_one(lower@);
    }
    let c = lower.get_char(0);
    if 'a' <= c && c <= 'z' {
        Some((c as u32 - 32) as i32)
    } else if '0' <= c && c <= '9' {
        Some(c as u32 as i32)
    } else {
        None
    }
}

/// The message for a key that is not recognized.
fn unrecognized_key_error(token: &str, original: &str) -> (r: String)
    ensures
        r@ == unrecognized_key_message(token@, original@),
{
    let mut r = "Couldn't recognize '".to_owned();
    r.append(token);
    r.append("' as a valid key in '");
    r.append(original);
    r.append("'");
    r
}

/// A main-key parse result, by the views of its strings.
pub open spec fn key_result_view(r: Result<(i32, String), String>) -> Result<
    (i32, Seq<char>),
    Seq<char>,
> {
    match r {
        Ok((vk, name)) => Ok((vk, name@)),
        Err(e) => Err(e@),
    }
}

/// Parses the main key of a hotkey: a named key, a function key `f1`..`f24`,
/// `key` or `digit` followed by one character, or a single letter or digit.
/// Gives its virtual-key code and the name under which it is written back; on
/// failure, a message quoting `token` and the whole hotkey `original_hotkey`.
pub fn parse_hotkey_main_key(token: &str, original_hotkey: &str) -> (r: Result<(i32, String), String>)
    ensures
        key_result_view(r) == main_key(token@, original_hotkey@),
    decreases main_key_measure(token@),
{
    let lower_string = to_lowercase(trim_str(token));
    let lower = lower_string.as_str();
    if let Some(found) = lookup_alias(lower) {
        return Ok(found);
    }
    if let Some(vk) = lookup_function_key(lower) {
        return Ok((vk, lower.to_owned()));
    }
    proof {
        reveal_strlit("key");
        reveal_strlit("digit");
    }
    if let Some(letter) = strip_key_prefix(lower, "key") {
        proof {
            if is_single_ascii(token@) {
                lemma_single_ascii_not_prefixed(token@, "key"@);
            }
            crate::text::lemma_utf8_len_one(letter@);
        }
        return parse_hotkey_main_key(letter, original_hotkey);
    }
    if let Some(digit) = strip_key_prefix(lower, "digit") {
        proof {
            if is_single_ascii(token@) {
                lemma_single_ascii_not_prefixed(token@, "digit"@);
            }
            crate::text::lemma_utf8_len_one(digit@);
        }
        return parse_hotkey_main_key(digit, original_hotkey);
    }
    if let Some(vk) = lookup_single_char(lower) {
        return Ok((vk, lower.to_owned()));
    }
    Err(unrecognized_key_error(token, original_hotkey))
}

// ---------------------------------------------------------------------------
// Bindings
// ---------------------------------------------------------------------------

/// A parsed hotkey: which modifiers it needs and its main key.
#[derive(Clone, Debug, PartialEq, Eq)]
pub struct HotkeyBinding {
    pub ctrl: bool,
    pub alt: bool,
    pub shift: bool,
    pub super_key: bool,
    pub main_vk: i32,
    pub key_token: String,
}

/// A hotkey binding by its plain values.
pub struct BindingView {
    pub ctrl: bool,
    pub alt: bool,
    pub shift: bool,
    pub super_key: bool,
    pub main_vk: i32,
    pub key_token: Seq<char>,
}

impl View for HotkeyBinding {
    type V = BindingView;

    open spec fn view(&self) -> BindingView {
        BindingView {
            ctrl: self.ctrl,
            alt: self.alt,
            shift: self.shift,
            super_key: self.super_key,
            main_vk: self.main_vk,
            key_token: self.key_token@,
        }
    }
}

/// The modifiers and the main key read so far from the tokens of a hotkey.
pub struct ParseState {
    pub ctrl: bool,
    pub alt: bool,
    pub shift: bool,
    pub super_key: bool,
    pub main_key: Option<(i32, Seq<char>)>,
}

/// The message for an empty token.
pub open spec fn empty_token_message(hotkey: Seq<char>) -> Seq<char> {
    "Invalid hotkey '"@ + hotkey + "': found empty key token"@
}

/// The message for a second main key.
pub open spec fn second_key_message(hotkey: Seq<char>) -> Seq<char> {
    "Invalid hotkey '"@ + hotkey + "': use modifiers first and only one main key"@
}

/// The message for a hotkey without a main key.
pub open spec fn missing_key_message(hotkey: Seq<char>) -> Seq<char> {
    "Invalid hotkey '"@ + hotkey + "': missing main key"@
}

/// The tokens of a hotkey: its normal form split at `+`, each piece trimmed.
pub open spec fn hotkey_tokens(hotkey: Seq<char>) -> Seq<Seq<char>> {
    split_on(normalize(hotkey), '+').map_values(|t: Seq<char>| trim(t))
}

/// Reads one token into the state: an empty token is an error, a modifier
/// name sets its modifier, anything else is the main key, of which there may
/// be only one.
pub open spec fn apply_token(st: ParseState, token: Seq<char>, hotkey: Seq<char>) -> Result<
    ParseState,
    Seq<char>,
> {
    if token.len() == 0 {
        Err(empty_token_message(hotkey))
    } else if token == "alt"@ || token == "option"@ {
        Ok(ParseState { alt: true, ..st })
    } else if token == "ctrl"@ || token == "control"@ {
        Ok(ParseState { ctrl: true, ..st })
    } else if token == "shift"@ {
        Ok(ParseState { shift: true, ..st })
    } else if token == "super"@ || token == "command"@ || token == "cmd"@ || token == "meta"@
        || token == "win"@ {
        Ok(ParseState { super_key: true, ..st })
    } else {
        match main_key(token, hotkey) {
            Err(e) => Err(e),
            Ok(k) => if st.main_key is Some {
                Err(second_key_message(hotkey))
            } else {
                Ok(ParseState { main_key: Some(k), ..st })
            },
        }
    }
}

/// Reads the tokens in order, stopping at the first error.
pub open spec fn apply_tokens(tokens: Seq<Seq<char>>, hotkey: Seq<char>) -> Result<
    ParseState,
    Seq<char>,
>
    decreases tokens.len(),
{
    if tokens.len() == 0 {
        Ok(ParseState { ctrl: false, alt: false, shift: false, super_key: false, main_key: None })
    } else {
        match apply_tokens(tokens.drop_last(), hotkey) {
            Err(e) => Err(e),
            Ok(st) => apply_token(st, tokens.last(), hotkey),
        }
    }
}

/// An error in the first `j` tokens is the error of all of them.
proof fn lemma_apply_tokens_error(tokens: Seq<Seq<char>>, j: int, hotkey: Seq<char>)
    requires
        0 <= j <= tokens.len(),
        apply_tokens(tokens.take(j), hotkey) is Err,
    ensures
        apply_tokens(tokens, hotkey) == apply_tokens(tokens.take(j), hotkey),
    decreases tokens.len(),
{
    if j == tokens.len() {
        assert(tokens.take(j) =~= tokens);
    } else {
        assert(tokens.drop_last().take(j) =~= tokens.take(j));
        lemma_apply_tokens_error(tokens.drop_last(), j, hotkey);
    }
}

/// What `parse_hotkey_binding` gives back for `hotkey`.
pub open spec fn parse_binding(hotkey: Seq<char>) -> Result<BindingView, Seq<char>> {
    match apply_tokens(hotkey_tokens(hotkey), hotkey) {
        Err(e) => Err(e),
        Ok(st) => match st.main_key {
            None => Err(missing_key_message(hotkey)),
            Some((vk, name)) => Ok(
                BindingView {
                    ctrl: st.ctrl,
                    alt: st.alt,
                    shift: st.shift,
                    super_key: st.super_key,
                    main_vk: vk,
                    key_token: name,
                },
            ),
        },
    }
}

/// A binding parse result, by the views of its values.
pub open spec fn binding_result_view(r: Result<HotkeyBinding, String>) -> Result<
    BindingView,
    Seq<char>,
> {
    match r {
        Ok(b) => Ok(b@),
        Err(e) => Err(e@),
    }
}

/// "Invalid hotkey '<hotkey>'" followed by `tail`.
fn invalid_hotkey_error(hotkey: &str, tail: &str) -> (r: String)
    ensures
        r@ == "Invalid hotkey '"@ + hotkey@ + tail@,
{
    let mut r = "Invalid hotkey '".to_owned();
    r.append(hotkey);
    r.append(tail);
    r
}

/// Parses a hotkey string such as `ctrl+shift+f5` into a binding: the string is
/// normalized, split at `+`, and each trimmed token read as a modifier or as
/// the single main key.
pub fn parse_hotkey_binding(hotkey: &str) -> (r: Result<HotkeyBinding, String>)
    ensures
        binding_result_view(r) == parse_binding(hotkey@),
{
    let normalized = normalize_hotkey(hotkey);
    let pieces = split_str(normalized.as_str(), '+');
    let ghost tokens = hotkey_tokens(hotkey@);
    assert(tokens.len() == pieces@.len());
    let mut ctrl = false;
    let mut alt = false;
    let mut shift = false;
    let mut super_key = false;
    let mut main_key_found: Option<(i32, String)> = None;
    let mut i: usize = 0;
    assert(tokens.take(0) =~= Seq::<Seq<char>>::empty());
    while i < pieces.len()
        invariant
            normalized@ == normalize(hotkey@),
            tokens == hotkey_tokens(hotkey@),
            tokens.len() == pieces@.len(),
            forall|k: int|
                0 <= k < pieces@.len() ==> #[trigger] pieces@[k]@ == split_on(
                    normalized@,
                    '+',
                )[k],
            i <= pieces@.len(),
            apply_tokens(tokens.take(i as int), hotkey@) == Ok::<ParseState, Seq<char>>(
                ParseState {
                    ctrl,
                    alt,
                    shift,
                    super_key,
                    main_key: match main_key_found {
                        Some((vk, name)) => Some((vk, name@)),
                        None => None,
                    },
                },
            ),
        decreases pieces@.len() - i,
    {
        let token = trim_str(pieces[i]);
        assert(token@ == tokens[i as int]);
        assert(tokens.take(i + 1).drop_last() =~= tokens.take(i as int));
        assert(tokens.take(i + 1).last() == tokens[i as int]);
        if token.unicode_len() == 0 {
            proof {
                lemma_apply_tokens_error(tokens, i + 1, hotkey@);
            }
            return Err(invalid_hotkey_error(hotkey, "': found empty key token"));
        }
        if str_eq(token, "alt") || str_eq(token, "option") {
            alt = true;
        } else if str_eq(token, "ctrl") || str_eq(token, "control") {
            ctrl = true;
        } else if str_eq(token, "shift") {
            shift = true;
        } else if str_eq(token, "super") || str_eq(token, "command") || str_eq(token, "cmd")
            || str_eq(token, "meta") || str_eq(token, "win") {
            super_key = true;
        } else {
            let key = parse_hotkey_main_key(token, hotkey);
            match key {
                Err(e) => {
                    proof {
                        lemma_apply_tokens_error(tokens, i + 1, hotkey@);
                    }
                    return Err(e);
                },
                Ok(k) => {
                    if main_key_found.is_some() {
                        proof {
                            lemma_apply_tokens_error(tokens, i + 1, hotkey@);
                        }
                        return Err(
                            invalid_hotkey_error(
                                hotkey,
                                "': use modifiers first and only one main key",
                            ),
                        );
                    }
                    main_key_found = Some(k);
                },
            }
        }
        i = i + 1;
    }
    assert(tokens.take(i as int) =~= tokens);
    match main_key_found {
        None => Err(invalid_hotkey_error(hotkey, "': missing main key")),
        Some((main_vk, key_token)) => Ok(
            HotkeyBinding { ctrl, alt, shift, super_key, main_vk, key_token },
        ),
    }
}

/// The written form of a binding: the modifiers it needs, in the order `ctrl`,
/// `alt`, `shift`, `super`, then its key name, joined by `+`.
pub open spec fn format_binding(b: BindingView) -> Seq<char> {
    (if b.ctrl {
        "ctrl+"@
    } else {
        Seq::<char>::empty()
    }) + (if b.alt {
        "alt+"@
    } else {
        Seq::<char>::empty()
    }) + (if b.shift {
        "shift+"@
    } else {
        Seq::<char>::empty()
    }) + (if b.super_key {
        "super+"@
    } else {
        Seq::<char>::empty()
    }) + b.key_token
}

/// Writes a binding back as a hotkey string.
pub fn format_hotkey_binding(binding: &HotkeyBinding) -> (r: String)
    ensures
        r@ == format_binding(binding@),
{
    let mut r = String::new();
    if binding.ctrl {
        r.append("ctrl+");
    }
    if binding.alt {
        r.append("alt+");
    }
    if binding.shift {
        r.append("shift+");
    }
    if binding.super_key {
        r.append("super+");
    }
    r.append(binding.key_token.as_str());
    assert(r@ =~= format_binding(binding@));
    r
}

// ---------------------------------------------------------------------------
// Registering
// ---------------------------------------------------------------------------

/// How long after a registration the hotkey is ignored, in milliseconds.
pub const REGISTER_SUPPRESS_MS: u64 = 250;

/// What registering a hotkey sets: the binding, its written form, the time
/// until which the hotkey is ignored, and whether it is also ignored until the
/// keys are first released.
pub struct HotkeyRegistration {
    pub binding: HotkeyBinding,
    pub display: String,
    pub suppress_until_ms: u64,
    pub suppress_until_release: bool,
}

/// `now_ms` plus the suppression time, held at `u64::MAX`.
pub open spec fn suppress_deadline(now_ms: u64) -> u64 {
    if now_ms + REGISTER_SUPPRESS_MS > u64::MAX {
        u64::MAX
    } else {
        (now_ms + REGISTER_SUPPRESS_MS) as u64
    }
}

/// Registers `hotkey` at the time `now_ms` (milliseconds since the epoch):
/// parses it, and gives the binding, its written form, and the suppression
/// that follows a registration. Fails, with the parse error, exactly where the
/// parse fails.
pub fn register_hotkey_inner(hotkey: &str, now_ms: u64) -> (r: Result<HotkeyRegistration, String>)
    ensures
        match r {
            Ok(reg) => {
                &&& parse_binding(hotkey@) == Ok::<BindingView, Seq<char>>(reg.binding@)
                &&& reg.display@ == format_binding(reg.binding@)
                &&& reg.suppress_until_ms == suppress_deadline(now_ms)
                &&& reg.suppress_until_release
            },
            Err(e) => parse_binding(hotkey@) == Err::<BindingView, Seq<char>>(e@),
        },
{
    let binding = match parse_hotkey_binding(hotkey) {
        Ok(b) => b,
        Err(e) => {
            return Err(e);
        },
    };
    let display = format_hotkey_binding(&binding);
    Ok(
        HotkeyRegistration {
            binding,
            display,
            suppress_until_ms: now_ms.saturating_add(REGISTER_SUPPRESS_MS),
            suppress_until_release: true,
        },
    )
}

// ---------------------------------------------------------------------------
// Whether a binding is held
// ---------------------------------------------------------------------------

/// Whether the keys `pressed` hold exactly the binding's modifiers (either
/// Windows key counting as `super`) and its main key.
pub open spec fn binding_pressed(b: BindingView, pressed: Seq<KeyCode>) -> bool {
    &&& key_down(VK_CONTROL as i32, pressed) == b.ctrl
    &&& key_down(VK_MENU as i32, pressed) == b.alt
    &&& key_down(VK_SHIFT as i32, pressed) == b.shift
    &&& (key_down(VK_LWIN as i32, pressed) || key_down(VK_RWIN as i32, pressed)) == b.super_key
    &&& key_down(b.main_vk, pressed)
}

/// Whether the binding is held, given the keys that are `pressed`: every
/// modifier must match, held or not, and the main key must be down.
pub fn is_hotkey_binding_pressed(binding: &HotkeyBinding, pressed: &[KeyCode]) -> (r: bool)
    ensures
        r == binding_pressed(binding@, pressed@),
{
    let ctrl_down = crate::keys::is_vk_down(VK_CONTROL as i32, pressed);
    let alt_down = crate::keys::is_vk_down(VK_MENU as i32, pressed);
    let shift_down = crate::keys::is_vk_down(VK_SHIFT as i32, pressed);
    let super_down = crate::keys::is_vk_down(VK_LWIN as i32, pressed) || crate::keys::is_vk_down(
        VK_RWIN as i32,
        pressed,
    );
    if ctrl_down != binding.ctrl || alt_down != binding.alt || shift_down != binding.shift
        || super_down != binding.super_key {
        return false;
    }
    crate::keys::is_vk_down(binding.main_vk, pressed)
}

/// Whether the registered hotkey, if there is one, is held.
pub fn registered_hotkey_pressed(binding: &Option<HotkeyBinding>, pressed: &[KeyCode]) -> (r: bool)
    ensures
        r == match binding {
            Some(b) => binding_pressed(b@, pressed@),
            None => false,
        },
{
    match binding {
        Some(b) => is_hotkey_binding_pressed(b, pressed),
        None => false,
    }
}

} // verus!
