//! Key presses and typed text, as the bytes a pty expects.
//!
//! xterm's table: the pty backend tells every pane it is an xterm, so xterm is
//! what the program there expects. The one mode that changes the encoding is
//! DECCKM, which the emulator reads off the stream.
use vstd::prelude::*;
use vstd::utf8::encode_utf8;
use crate::text::{chars_of, utf8_of};

verus! {

/// A key a client can press.
#[derive(Debug, Clone, Copy, PartialEq, Eq, Structural)]
pub enum Key {
    Char(char),
    Enter,
    Escape,
    Tab,
    Backspace,
    Insert,
    Delete,
    PageUp,
    PageDown,
    Home,
    End,
    Up,
    Down,
    Right,
    Left,
    F(u8),
}

/// The modifiers held with a key.
#[derive(Debug, Clone, Copy, PartialEq, Eq, Structural)]
pub struct Mods {
    pub shift: bool,
    pub alt: bool,
    pub ctrl: bool,
}

impl Mods {
    /// No modifier held.
    pub fn none() -> (mods: Mods)
        ensures
            !mods.shift && !mods.alt && !mods.ctrl,
    {
        Mods { shift: false, alt: false, ctrl: false }
    }
}

/// What a client sends a pane: text, or one key with its modifiers.
#[derive(Debug, Clone, PartialEq, Eq)]
pub enum TerminalInput {
    Text(String),
    Key { key: Key, mods: Mods },
}

/// A client's input as values.
pub enum InputView {
    Text(Seq<char>),
    Key { key: Key, mods: Mods },
}

impl View for TerminalInput {
    type V = InputView;

    open spec fn view(&self) -> InputView {
        match self {
            TerminalInput::Text(t) => InputView::Text(t@),
            TerminalInput::Key { key, mods } => InputView::Key { key: *key, mods: *mods },
        }
    }
}

pub open spec fn inputs_view(v: Seq<TerminalInput>) -> Seq<InputView> {
    Seq::new(v.len(), |i: int| v[i]@)
}

pub open spec fn is_line_end(c: char) -> bool {
    c == '\n' || c == '\r'
}

pub open spec fn is_control(c: char) -> bool {
    let u = c as u32;
    u <= 0x1f || (0x7f <= u && u <= 0x9f)
}

/// Typed text with line endings made carriage returns and every other
/// control character dropped: `\r\n` and `\n` become `\r`, a tab stays.
pub open spec fn sanitized(s: Seq<char>) -> Seq<char>
    decreases s.len(),
{
    if s.len() == 0 {
        Seq::empty()
    } else if s[0] == '\r' {
        if s.len() > 1 && s[1] == '\n' {
            seq!['\r'] + sanitized(s.skip(2))
        } else {
            seq!['\r'] + sanitized(s.drop_first())
        }
    } else if s[0] == '\n' {
        seq!['\r'] + sanitized(s.drop_first())
    } else if s[0] == '\t' {
        seq!['\t'] + sanitized(s.drop_first())
    } else if is_control(s[0]) {
        sanitized(s.drop_first())
    } else {
        seq![s[0]] + sanitized(s.drop_first())
    }
}

/// The paste brackets that open and close multi-line text.
pub open spec fn paste_open() -> Seq<char> {
    seq!['\x1b', '[', '2', '0', '0', '~']
}

pub open spec fn paste_close() -> Seq<char> {
    seq!['\x1b', '[', '2', '0', '1', '~']
}

/// The bytes text is sent as: sanitised, and bracketed when the pane asked for
/// bracketed paste and the text spans lines.
pub open spec fn text_bytes(s: Seq<char>, bracketed_paste: bool) -> Seq<u8> {
    if bracketed_paste && (s.contains('\n') || s.contains('\r')) {
        encode_utf8(paste_open() + sanitized(s) + paste_close())
    } else {
        encode_utf8(sanitized(s))
    }
}

/// The ASCII digits of `n`.
pub open spec fn decimal(n: nat) -> Seq<u8>
    decreases n,
{
    if n < 10 {
        seq![(48 + n) as u8]
    } else {
        decimal(n / 10) + seq![(48 + n % 10) as u8]
    }
}

/// xterm's modifier parameter: `1 + shift + 2*alt + 4*ctrl`.
pub open spec fn modifier(mods: Mods) -> nat {
    1 + (if mods.shift {
        1nat
    } else {
        0nat
    }) + (if mods.alt {
        2nat
    } else {
        0nat
    }) + (if mods.ctrl {
        4nat
    } else {
        0nat
    })
}

/// `ESC [ 1 ; m F`, the modified form of a cursor or function key.
pub open spec fn modified(final_byte: u8, mods: Mods) -> Seq<u8> {
    seq![0x1bu8, 0x5bu8, 0x31u8, 0x3bu8] + decimal(modifier(mods)) + seq![final_byte]
}

/// A cursor key: modified, application (`ESC O F`) or normal (`ESC [ F`).
pub open spec fn cursor_bytes(final_byte: u8, mods: Mods, application: bool) -> Seq<u8> {
    if modifier(mods) > 1 {
        modified(final_byte, mods)
    } else if application {
        seq![0x1bu8, 0x4fu8, final_byte]
    } else {
        seq![0x1bu8, 0x5bu8, final_byte]
    }
}

/// `ESC [ n ~`, or `ESC [ n ; m ~` when modified.
pub open spec fn tilde_bytes(number: nat, mods: Mods) -> Seq<u8> {
    if modifier(mods) > 1 {
        seq![0x1bu8, 0x5bu8] + decimal(number) + seq![0x3bu8] + decimal(modifier(mods)) + seq![
            0x7eu8,
        ]
    } else {
        seq![0x1bu8, 0x5bu8] + decimal(number) + seq![0x7eu8]
    }
}

/// The tilde parameter of function keys five to twenty.
pub open spec fn function_parameter(number: u8) -> Option<nat> {
    if number == 5 {
        Some(15)
    } else if 6 <= number <= 10 {
        Some((number + 11) as nat)
    } else if 11 <= number <= 14 {
        Some((number + 12) as nat)
    } else if 15 <= number <= 16 {
        Some((number + 13) as nat)
    } else if 17 <= number <= 20 {
        Some((number + 14) as nat)
    } else {
        None
    }
}

/// A function key: F1 to F4 are SS3 keys, the rest tilde keys, and an
/// unknown one encodes to nothing.
pub open spec fn function_bytes(number: u8, mods: Mods) -> Seq<u8> {
    if 1 <= number <= 4 {
        let final_byte = (0x50 + number - 1) as u8;
        if modifier(mods) > 1 {
            modified(final_byte, mods)
        } else {
            seq![0x1bu8, 0x4fu8, final_byte]
        }
    } else {
        match function_parameter(number) {
            Some(p) => tilde_bytes(p, mods),
            None => Seq::empty(),
        }
    }
}

/// The control byte a character makes with Ctrl held, where it has one.
pub open spec fn control_byte(ch: char) -> Option<u8> {
    let u = ch as u32;
    if 0x61 <= u <= 0x7a {
        Some((u - 0x61 + 1) as u8)
    } else if 0x41 <= u <= 0x5a {
        Some((u - 0x41 + 1) as u8)
    } else if ch == '@' || ch == ' ' {
        Some(0u8)
    } else if ch == '[' {
        Some(0x1bu8)
    } else if ch == '\\' {
        Some(0x1cu8)
    } else if ch == ']' {
        Some(0x1du8)
    } else if ch == '^' {
        Some(0x1eu8)
    } else if ch == '_' {
        Some(0x1fu8)
    } else if ch == '?' {
        Some(0x7fu8)
    } else {
        None
    }
}

/// A character key: its control byte under Ctrl, else its UTF-8, and an
/// escape in front under Alt.
pub open spec fn character_bytes(ch: char, mods: Mods) -> Seq<u8> {
    let base = if mods.ctrl {
        match control_byte(ch) {
            Some(b) => seq![b],
            None => encode_utf8(seq![ch]),
        }
    } else {
        encode_utf8(seq![ch])
    };
    if mods.alt {
        seq![0x1bu8] + base
    } else {
        base
    }
}

/// A key before any escape prefix.
pub open spec fn bare_key_bytes(key: Key, mods: Mods, application: bool) -> Seq<u8> {
    match key {
        Key::Char(ch) => character_bytes(ch, mods),
        Key::Enter => seq![0x0du8],
        Key::Escape => seq![0x1bu8],
        Key::Tab => if mods.shift {
            seq![0x1bu8, 0x5bu8, 0x5au8]
        } else {
            seq![0x09u8]
        },
        Key::Backspace => if mods.ctrl {
            seq![0x08u8]
        } else {
            seq![0x7fu8]
        },
        Key::Insert => tilde_bytes(2, mods),
        Key::Delete => tilde_bytes(3, mods),
        Key::PageUp => tilde_bytes(5, mods),
        Key::PageDown => tilde_bytes(6, mods),
        Key::Home => cursor_bytes(0x48, mods, application),
        Key::End => cursor_bytes(0x46, mods, application),
        Key::Up => cursor_bytes(0x41, mods, application),
        Key::Down => cursor_bytes(0x42, mods, application),
        Key::Right => cursor_bytes(0x43, mods, application),
        Key::Left => cursor_bytes(0x44, mods, application),
        Key::F(number) => function_bytes(number, mods),
    }
}

/// Only keys with no parameterised form take the Alt escape prefix; the
/// others carry Alt inside their modifier parameter.
pub open spec fn prefixes_escape(key: Key) -> bool {
    key is Enter || key is Escape || key is Tab || key is Backspace
}

/// The bytes a key press is sent as.
pub open spec fn key_bytes(key: Key, mods: Mods, application: bool) -> Seq<u8> {
    let out = bare_key_bytes(key, mods, application);
    if mods.alt && prefixes_escape(key) && out.len() > 0 {
        seq![0x1bu8] + out
    } else {
        out
    }
}

/// The final byte xterm gives each cursor key: `A` up, `B` down, `C` right,
/// `D` left, `H` home and `F` end.
pub open spec fn xterm_final(key: Key) -> Option<u8> {
    match key {
        Key::Up => Some(0x41u8),
        Key::Down => Some(0x42u8),
        Key::Right => Some(0x43u8),
        Key::Left => Some(0x44u8),
        Key::Home => Some(0x48u8),
        Key::End => Some(0x46u8),
        _ => None,
    }
}

/// A cursor key is sent as xterm sends it: `ESC [` and its letter, `ESC O`
/// and its letter while the pane asked for application cursor keys, and
/// `ESC [ 1 ; m` and its letter with modifiers held, `m` being one plus one
/// for Shift, two for Alt and four for Ctrl.
pub proof fn lemma_cursor_keys_are_xterm(key: Key, mods: Mods, application: bool)
    requires
        xterm_final(key) is Some,
    ensures
        ({
            let f = xterm_final(key)->0;
            let m = 1 + (if mods.shift { 1int } else { 0 }) + (if mods.alt { 2int } else { 0 }) + (if mods.ctrl {
                4int
            } else {
                0
            });
            let out = key_bytes(key, mods, application);
            &&& m == 1 && !application ==> out == seq![0x1bu8, 0x5bu8, f]
            &&& m == 1 && application ==> out == seq![0x1bu8, 0x4fu8, f]
            &&& m > 1 ==> out == seq![0x1bu8, 0x5bu8, 0x31u8, 0x3bu8, (0x30 + m) as u8, f]
        }),
{
    let m = modifier(mods);
    if m > 1 {
        assert(m < 10);
        reveal_with_fuel(decimal, 2);
    }
}

/// The keys with a fixed byte are sent as a terminal sends them: Enter as
/// carriage return, Escape as ESC, Tab as HT and Shift-Tab as `ESC [ Z`,
/// Backspace as DEL and Ctrl-Backspace as BS, each after an ESC when Alt is
/// held.
pub proof fn lemma_fixed_keys(mods: Mods, application: bool)
    ensures
        ({
            let esc: Seq<u8> = if mods.alt { seq![0x1bu8] } else { Seq::empty() };
            &&& key_bytes(Key::Enter, mods, application) == esc + seq![0x0du8]
            &&& key_bytes(Key::Escape, mods, application) == esc + seq![0x1bu8]
            &&& key_bytes(Key::Tab, mods, application) == esc + if mods.shift {
                seq![0x1bu8, 0x5bu8, 0x5au8]
            } else {
                seq![0x09u8]
            }
            &&& key_bytes(Key::Backspace, mods, application) == esc + if mods.ctrl {
                seq![0x08u8]
            } else {
                seq![0x7fu8]
            }
        }),
{
    assert(Seq::<u8>::empty() + seq![0x0du8] =~= seq![0x0du8]);
    assert(Seq::<u8>::empty() + seq![0x1bu8] =~= seq![0x1bu8]);
    assert(Seq::<u8>::empty() + seq![0x09u8] =~= seq![0x09u8]);
    assert(Seq::<u8>::empty() + seq![0x1bu8, 0x5bu8, 0x5au8] =~= seq![0x1bu8, 0x5bu8, 0x5au8]);
    assert(Seq::<u8>::empty() + seq![0x08u8] =~= seq![0x08u8]);
    assert(Seq::<u8>::empty() + seq![0x7fu8] =~= seq![0x7fu8]);
}

/// The bytes xterm sends for an unmodified function or editing key: F1 to F4
/// as `ESC O P` to `ESC O S`, F5 to F12 as `ESC [ 15 ~`, 17 to 21, 23 and 24,
/// Insert, Delete, Page Up and Page Down as `ESC [ 2 ~`, 3, 5 and 6.
pub open spec fn xterm_function_bytes(key: Key) -> Option<Seq<u8>> {
    match key {
        Key::F(1) => Some(seq![0x1bu8, 0x4fu8, 0x50u8]),
        Key::F(2) => Some(seq![0x1bu8, 0x4fu8, 0x51u8]),
        Key::F(3) => Some(seq![0x1bu8, 0x4fu8, 0x52u8]),
        Key::F(4) => Some(seq![0x1bu8, 0x4fu8, 0x53u8]),
        Key::F(5) => Some(seq![0x1bu8, 0x5bu8, 0x31u8, 0x35u8, 0x7eu8]),
        Key::F(6) => Some(seq![0x1bu8, 0x5bu8, 0x31u8, 0x37u8, 0x7eu8]),
        Key::F(7) => Some(seq![0x1bu8, 0x5bu8, 0x31u8, 0x38u8, 0x7eu8]),
        Key::F(8) => Some(seq![0x1bu8, 0x5bu8, 0x31u8, 0x39u8, 0x7eu8]),
        Key::F(9) => Some(seq![0x1bu8, 0x5bu8, 0x32u8, 0x30u8, 0x7eu8]),
        Key::F(10) => Some(seq![0x1bu8, 0x5bu8, 0x32u8, 0x31u8, 0x7eu8]),
        Key::F(11) => Some(seq![0x1bu8, 0x5bu8, 0x32u8, 0x33u8, 0x7eu8]),
        Key::F(12) => Some(seq![0x1bu8, 0x5bu8, 0x32u8, 0x34u8, 0x7eu8]),
        Key::Insert => Some(seq![0x1bu8, 0x5bu8, 0x32u8, 0x7eu8]),
        Key::Delete => Some(seq![0x1bu8, 0x5bu8, 0x33u8, 0x7eu8]),
        Key::PageUp => Some(seq![0x1bu8, 0x5bu8, 0x35u8, 0x7eu8]),
        Key::PageDown => Some(seq![0x1bu8, 0x5bu8, 0x36u8, 0x7eu8]),
        _ => None,
    }
}

/// Function and editing keys with no modifier are sent as xterm sends them,
/// whatever the cursor-key mode.
pub proof fn lemma_function_keys_are_xterm(key: Key, application: bool)
    requires
        xterm_function_bytes(key) is Some,
    ensures
        key_bytes(key, Mods { shift: false, alt: false, ctrl: false }, application) == xterm_function_bytes(key)->0,
{
    reveal_with_fuel(decimal, 3);
    assert(decimal(2) == seq![0x32u8]);
    assert(decimal(15) =~= seq![0x31u8, 0x35u8]);
    assert(decimal(17) =~= seq![0x31u8, 0x37u8]);
    assert(decimal(18) =~= seq![0x31u8, 0x38u8]);
    assert(decimal(19) =~= seq![0x31u8, 0x39u8]);
    assert(decimal(20) =~= seq![0x32u8, 0x30u8]);
    assert(decimal(21) =~= seq![0x32u8, 0x31u8]);
    assert(decimal(23) =~= seq![0x32u8, 0x33u8]);
    assert(decimal(24) =~= seq![0x32u8, 0x34u8]);
    match key {
        Key::F(n) => {
            if n == 5 || n == 6 || n == 7 || n == 8 || n == 9 || n == 10 || n == 11 || n == 12 {
                assert(key_bytes(key, Mods { shift: false, alt: false, ctrl: false }, application) =~= xterm_function_bytes(key)->0);
            }
        },
        _ => {
            assert(key_bytes(key, Mods { shift: false, alt: false, ctrl: false }, application) =~= xterm_function_bytes(key)->0);
        },
    }
}

/// A letter typed with Ctrl alone is its control byte, the letter's place in
/// the alphabet (Ctrl-A is 1, Ctrl-Z is 26) whatever its case; with Alt as
/// well it is preceded by ESC. A character typed with no modifier is its own
/// UTF-8.
pub proof fn lemma_control_letters(ch: char, alt: bool, application: bool)
    ensures
        ('a' <= ch <= 'z' || 'A' <= ch <= 'Z') ==> key_bytes(Key::Char(ch), Mods { shift: false, alt, ctrl: true }, application)
            == (if alt { seq![0x1bu8] } else { Seq::<u8>::empty() }) + seq![
            (if 'a' <= ch { ch as u32 - 0x60 } else { ch as u32 - 0x40 }) as u8,
        ],
        key_bytes(Key::Char(ch), Mods { shift: false, alt: false, ctrl: false }, application) == encode_utf8(seq![ch]),
{
    if 'a' <= ch <= 'z' || 'A' <= ch <= 'Z' {
        if !alt {
            assert(Seq::<u8>::empty() + seq![(if 'a' <= ch { ch as u32 - 0x60 } else { ch as u32 - 0x40 }) as u8]
                =~= seq![(if 'a' <= ch { ch as u32 - 0x60 } else { ch as u32 - 0x40 }) as u8]);
        }
    }
}

/// Typed text reaches the pane with no control character but carriage
/// return and tab: every line break is a carriage return.
pub proof fn lemma_sanitized_is_clean(s: Seq<char>)
    ensures
        forall|i: int| 0 <= i < sanitized(s).len() ==> (is_control(#[trigger] sanitized(s)[i]) ==> sanitized(s)[i]
            == '\r' || sanitized(s)[i] == '\t'),
    decreases s.len(),
{
    if s.len() > 0 {
        if s[0] == '\r' && s.len() > 1 && s[1] == '\n' {
            lemma_sanitized_is_clean(s.skip(2));
        } else {
            lemma_sanitized_is_clean(s.drop_first());
        }
        let rest = if s[0] == '\r' && s.len() > 1 && s[1] == '\n' { sanitized(s.skip(2)) } else { sanitized(s.drop_first()) };
        assert forall|i: int| 0 <= i < sanitized(s).len() implies (is_control(#[trigger] sanitized(s)[i])
            ==> sanitized(s)[i] == '\r' || sanitized(s)[i] == '\t') by {
            if !(is_control(s[0]) && s[0] != '\r' && s[0] != '\n' && s[0] != '\t') && i > 0 {
                assert(sanitized(s)[i] == rest[i - 1]);
            }
        }
    }
}

/// Text with no control character but tab is sent as its own UTF-8,
/// unchanged, bracketed paste or not.
pub proof fn lemma_plain_text_passes_through(s: Seq<char>, bracketed_paste: bool)
    requires
        forall|i: int| 0 <= i < s.len() ==> !is_control(#[trigger] s[i]) || s[i] == '\t',
    ensures
        sanitized(s) == s,
        text_bytes(s, bracketed_paste) == encode_utf8(s),
    decreases s.len(),
{
    if s.len() > 0 {
        assert forall|i: int| 0 <= i < s.drop_first().len() implies !is_control(#[trigger] s.drop_first()[i])
            || s.drop_first()[i] == '\t' by {
            assert(s.drop_first()[i] == s[i + 1]);
        }
        lemma_plain_text_passes_through(s.drop_first(), bracketed_paste);
        assert(s[0] != '\r' && s[0] != '\n');
        assert(seq![s[0]] + s.drop_first() =~= s);
    }
    assert(!s.contains('\n')) by {
        if s.contains('\n') {
            let i = choose|i: int| 0 <= i < s.len() && s[i] == '\n';
            assert(!is_control(s[i]) || s[i] == '\t');
        }
    }
    assert(!s.contains('\r')) by {
        if s.contains('\r') {
            let i = choose|i: int| 0 <= i < s.len() && s[i] == '\r';
            assert(!is_control(s[i]) || s[i] == '\t');
        }
    }
}

/// Appends the ASCII digits of `n`.
pub(crate) fn push_decimal(out: &mut Vec<u8>, n: u16)
    ensures
        final(out)@ == old(out)@ + decimal(n as nat),
    decreases n,
{
    if n >= 10 {
        push_decimal(out, n / 10);
    }
    out.push((48 + n % 10) as u8);
}

/// `TerminalInput` to pty bytes.
pub struct KeyEncoder;

impl KeyEncoder {
    /// The bytes a client's input is sent to the pane as.
    pub fn encode(input: &TerminalInput, application_cursor_keys: bool, bracketed_paste: bool) -> (out: Vec<u8>)
        ensures
            out@ == match input {
                TerminalInput::Text(text) => text_bytes(text@, bracketed_paste),
                TerminalInput::Key { key, mods } => key_bytes(*key, *mods, application_cursor_keys),
            },
    {
        match input {
            TerminalInput::Text(text) => Self::text(text.as_str(), bracketed_paste),
            TerminalInput::Key { key, mods } => Self::key(*key, *mods, application_cursor_keys),
        }
    }

    /// The bytes one key press is sent as.
    pub fn key(key: Key, mods: Mods, application_cursor_keys: bool) -> (out: Vec<u8>)
        ensures
            out@ == key_bytes(key, mods, application_cursor_keys),
    {
        let mut out = match key {
            Key::Char(ch) => Self::character(ch, mods),
            Key::Enter => vec![0x0d],
            Key::Escape => vec![0x1b],
            Key::Tab => if mods.shift {
                vec![0x1b, 0x5b, 0x5a]
            } else {
                vec![0x09]
            },
            Key::Backspace => if mods.ctrl {
                vec![0x08]
            } else {
                vec![0x7f]
            },
            Key::Insert => Self::tilde(2, mods),
            Key::Delete => Self::tilde(3, mods),
            Key::PageUp => Self::tilde(5, mods),
            Key::PageDown => Self::tilde(6, mods),
            Key::Home => Self::cursor(0x48, mods, application_cursor_keys),
            Key::End => Self::cursor(0x46, mods, application_cursor_keys),
            Key::Up => Self::cursor(0x41, mods, application_cursor_keys),
            Key::Down => Self::cursor(0x42, mods, application_cursor_keys),
            Key::Right => Self::cursor(0x43, mods, application_cursor_keys),
            Key::Left => Self::cursor(0x44, mods, application_cursor_keys),
            Key::F(number) => Self::function(number, mods),
        };
        let prefixes = match key {
            Key::Enter | Key::Escape | Key::Tab | Key::Backspace => true,
            _ => false,
        };
        if mods.alt && prefixes && out.len() > 0 {
            out.insert(0, 0x1b);
            assert(out@ =~= seq![0x1bu8] + bare_key_bytes(key, mods, application_cursor_keys));
        }
        out
    }

    /// Text as typed: line endings become carriage returns, a tab stays, and
    /// every other control character is dropped, so text cannot carry an
    /// escape sequence into a pane. Multi-line text is a paste, bracketed when
    /// the pane asked for bracketed paste.
    pub fn text(text: &str, bracketed_paste: bool) -> (out: Vec<u8>)
        ensures
            out@ == text_bytes(text@, bracketed_paste),
    {
        let chars = chars_of(text);
        let mut multi_line = false;
        let mut body: Vec<char> = Vec::new();
        let mut i: usize = 0;
        assert(chars@.skip(0) == chars@);
        assert(body@ + sanitized(chars@) =~= sanitized(chars@));
        while i < chars.len()
            invariant
                i <= chars.len(),
                chars@ == text@,
                body@ + sanitized(chars@.skip(i as int)) == sanitized(chars@),
                multi_line == (exists|k: int| 0 <= k < i && is_line_end(#[trigger] chars@[k])),
            decreases chars.len() - i,
        {
            let ghost rest = chars@.skip(i as int);
            let ch = chars[i];
            assert(rest[0] == ch);
            if ch == '\n' || ch == '\r' {
                multi_line = true;
            }
            if ch == '\r' {
                if i + 1 < chars.len() && chars[i + 1] == '\n' {
                    proof {
                        assert(rest[1] == '\n');
                        assert(rest.skip(2) == chars@.skip(i + 2));
                        assert(is_line_end(chars@[i as int]));
                    }
                    body.push('\r');
                    proof {
                        assert(body@ + sanitized(chars@.skip(i + 2)) == sanitized(chars@)) by {
                            assert(sanitized(rest) == seq!['\r'] + sanitized(rest.skip(2)));
                            assert(body@ =~= body@.drop_last().push('\r'));
                            assert(body@.drop_last() + sanitized(rest) == sanitized(chars@));
                            assert(body@.drop_last() + (seq!['\r'] + sanitized(rest.skip(2))) =~= body@
                                + sanitized(rest.skip(2)));
                        }
                    }
                    i += 2;
                    continue;
                }
                body.push('\r');
            } else if ch == '\n' {
                body.push('\r');
            } else if ch == '\t' {
                body.push('\t');
            } else if (ch as u32) <= 0x1f || (0x7f <= (ch as u32) && (ch as u32) <= 0x9f) {
            } else {
                body.push(ch);
            }
            proof {
                assert(rest.drop_first() == chars@.skip(i + 1));
                let before = if ch == '\r' || ch == '\n' || ch == '\t' || !is_control(ch) {
                    body@.drop_last()
                } else {
                    body@
                };
                assert(before + sanitized(rest) == sanitized(chars@));
                assert(body@ + sanitized(chars@.skip(i + 1)) =~= before + sanitized(rest));
            }
            i += 1;
        }
        proof {
            assert(chars@.skip(i as int) =~= Seq::<char>::empty());
            assert(body@ + Seq::<char>::empty() =~= body@);
            if multi_line {
                let k = choose|k: int| 0 <= k < i && is_line_end(#[trigger] chars@[k]);
                if chars@[k] == '\n' {
                    assert(text@.contains('\n'));
                } else {
                    assert(text@.contains('\r'));
                }
            } else {
                if text@.contains('\n') {
                    let k = choose|k: int| 0 <= k < text@.len() && text@[k] == '\n';
                    assert(is_line_end(chars@[k]));
                }
                if text@.contains('\r') {
                    let k = choose|k: int| 0 <= k < text@.len() && text@[k] == '\r';
                    assert(is_line_end(chars@[k]));
                }
            }
        }
        if bracketed_paste && multi_line {
            let mut framed: Vec<char> = vec!['\x1b', '[', '2', '0', '0', '~'];
            let mut k: usize = 0;
            let ghost start = framed@;
            while k < body.len()
                invariant
                    k <= body.len(),
                    framed@ == start + body@.take(k as int),
                decreases body.len() - k,
            {
                framed.push(body[k]);
                assert(body@.take(k + 1) == body@.take(k as int).push(body@[k as int]));
                k += 1;
            }
            assert(body@.take(body.len() as int) == body@);
            framed.push('\x1b');
            framed.push('[');
            framed.push('2');
            framed.push('0');
            framed.push('1');
            framed.push('~');
            assert(framed@ =~= paste_open() + sanitized(text@) + paste_close());
            return utf8_of(&framed);
        }
        utf8_of(&body)
    }

    fn character(ch: char, mods: Mods) -> (out: Vec<u8>)
        ensures
            out@ == character_bytes(ch, mods),
    {
        let u = ch as u32;
        let mut out: Vec<u8> = if mods.ctrl {
            if 0x61 <= u && u <= 0x7a {
                vec![(u - 0x61 + 1) as u8]
            } else if 0x41 <= u && u <= 0x5a {
                vec![(u - 0x41 + 1) as u8]
            } else if ch == '@' || ch == ' ' {
                vec![0x00]
            } else if ch == '[' {
                vec![0x1b]
            } else if ch == '\\' {
                vec![0x1c]
            } else if ch == ']' {
                vec![0x1d]
            } else if ch == '^' {
                vec![0x1e]
            } else if ch == '_' {
                vec![0x1f]
            } else if ch == '?' {
                vec![0x7f]
            } else {
                let one: [char; 1] = [ch];
                assert(one@ =~= seq![ch]);
                utf8_of(&one)
            }
        } else {
            let one: [char; 1] = [ch];
            assert(one@ =~= seq![ch]);
            utf8_of(&one)
        };
        let ghost base = out@;
        if mods.alt {
            out.insert(0, 0x1b);
            assert(out@ =~= seq![0x1bu8] + base);
        }
        out
    }

    fn modifier(mods: Mods) -> (value: u16)
        ensures
            value == modifier(mods),
    {
        let mut value: u16 = 1;
        if mods.shift {
            value += 1;
        }
        if mods.alt {
            value += 2;
        }
        if mods.ctrl {
            value += 4;
        }
        value
    }

    fn cursor(final_byte: u8, mods: Mods, application: bool) -> (out: Vec<u8>)
        ensures
            out@ == cursor_bytes(final_byte, mods, application),
    {
        let modifier = Self::modifier(mods);
        if modifier > 1 {
            let mut out: Vec<u8> = vec![0x1b, 0x5b, 0x31, 0x3b];
            push_decimal(&mut out, modifier);
            out.push(final_byte);
            return out;
        }
        if application {
            return vec![0x1b, 0x4f, final_byte];
        }
        vec![0x1b, 0x5b, final_byte]
    }

    fn tilde(number: u16, mods: Mods) -> (out: Vec<u8>)
        ensures
            out@ == tilde_bytes(number as nat, mods),
    {
        let modifier = Self::modifier(mods);
        let mut out: Vec<u8> = vec![0x1b, 0x5b];
        push_decimal(&mut out, number);
        if modifier > 1 {
            out.push(0x3b);
            push_decimal(&mut out, modifier);
        }
        out.push(0x7e);
        out
    }

    fn function(number: u8, mods: Mods) -> (out: Vec<u8>)
        ensures
            out@ == function_bytes(number, mods),
    {
        let modifier = Self::modifier(mods);
        if 1 <= number && number <= 4 {
            let final_byte: u8 = 0x50 + number - 1;
            if modifier > 1 {
                let mut out: Vec<u8> = vec![0x1b, 0x5b, 0x31, 0x3b];
                push_decimal(&mut out, modifier);
                out.push(final_byte);
                return out;
            }
            return vec![0x1b, 0x4f, final_byte];
        }
        let parameter: u16 = if number == 5 {
            15
        } else if 6 <= number && number <= 10 {
            number as u16 + 11
        } else if 11 <= number && number <= 14 {
            number as u16 + 12
        } else if 15 <= number && number <= 16 {
            number as u16 + 13
        } else if 17 <= number && number <= 20 {
            number as u16 + 14
        } else {
            return Vec::new();
        };
        Self::tilde(parameter, mods)
    }
}

} // verus!
