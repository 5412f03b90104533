//! The human CLI's decisions: which project to act on, the project picker
//! and the base-URL editor driven key by key, URL encoding, and the texts it
//! writes. Terminal, files and HTTP stay with the caller.
use vstd::prelude::*;
use crate::text::{chars_of, string_of, push_char};
use crate::write_scope::trim_end_char;

verus! {

/// One project in the picker.
#[derive(Debug, Clone)]
pub struct ProjectRow {
    pub id: String,
    pub name: String,
    pub repo_path: String,
}

/// The keys the terminal screens react to.
#[derive(Debug, Clone, Copy, PartialEq, Eq, Structural)]
pub enum Key {
    Esc,
    Enter,
    Backspace,
    Left,
    Right,
    Up,
    Down,
    Char(char),
    Other,
}

/// What the project picker does after a key.
#[derive(Debug, Clone, Copy, PartialEq, Eq, Structural)]
pub enum PickerStep {
    /// Keep going with this row selected.
    Select(usize),
    /// The row at this position was chosen.
    Chosen(usize),
    Cancelled,
}

/// The picker's answer to a key: Esc or `q` cancel, Enter chooses the
/// selected row, Down or `j` moves down and Up or `k` moves up, stopping at
/// the ends; any other key changes nothing.
pub open spec fn picker_next(selected: int, count: int, key: Key) -> PickerStep {
    match key {
        Key::Esc | Key::Char('q') => PickerStep::Cancelled,
        Key::Enter => PickerStep::Chosen(selected as usize),
        Key::Down | Key::Char('j') => PickerStep::Select(if selected + 1 < count { (selected + 1) as usize } else { (count - 1) as usize }),
        Key::Up | Key::Char('k') => PickerStep::Select(if selected > 0 { (selected - 1) as usize } else { 0usize }),
        _ => PickerStep::Select(selected as usize),
    }
}

/// One key in the project picker, over `count` rows with `selected` the
/// selected one.
pub fn picker_step(selected: usize, count: usize, key: Key) -> (r: PickerStep)
    requires
        selected < count,
    ensures
        r == picker_next(selected as int, count as int, key),
        r matches PickerStep::Select(i) ==> i < count,
        r matches PickerStep::Chosen(i) ==> i < count,
{
    match key {
        Key::Esc => PickerStep::Cancelled,
        Key::Char('q') => PickerStep::Cancelled,
        Key::Enter => PickerStep::Chosen(selected),
        Key::Down | Key::Char('j') => {
            if selected + 1 < count {
                PickerStep::Select(selected + 1)
            } else {
                PickerStep::Select(count - 1)
            }
        },
        Key::Up | Key::Char('k') => {
            if selected > 0 {
                PickerStep::Select(selected - 1)
            } else {
                PickerStep::Select(0)
            }
        },
        _ => PickerStep::Select(selected),
    }
}

/// A one-line text editor: the text and the cursor, a position between
/// characters.
#[derive(Debug, Clone)]
pub struct LineEdit {
    pub value: Vec<char>,
    pub cursor: usize,
}

/// What the editor does after a key.
#[derive(Debug, Clone, Copy, PartialEq, Eq, Structural)]
pub enum EditStep {
    Continue,
    /// Enter: keep the text.
    Save,
    /// Esc: give up the edit.
    Cancel,
}

/// The editor's text and cursor after a key: Backspace deletes the
/// character before the cursor, Left and Right move it within the text, a
/// character is inserted at the cursor; Enter and Esc end the edit.
pub open spec fn edit_next(value: Seq<char>, cursor: int, key: Key) -> (Seq<char>, int, EditStep) {
    match key {
        Key::Esc => (value, cursor, EditStep::Cancel),
        Key::Enter => (value, cursor, EditStep::Save),
        Key::Backspace => if cursor > 0 {
            (value.remove(cursor - 1), cursor - 1, EditStep::Continue)
        } else {
            (value, cursor, EditStep::Continue)
        },
        Key::Left => (value, if cursor > 0 { cursor - 1 } else { 0 }, EditStep::Continue),
        Key::Right => (value, if cursor < value.len() { cursor + 1 } else { cursor }, EditStep::Continue),
        Key::Char(c) => (value.insert(cursor, c), cursor + 1, EditStep::Continue),
        _ => (value, cursor, EditStep::Continue),
    }
}

impl LineEdit {
    /// An editor holding `text`, with the cursor at its end.
    pub fn new(text: &str) -> (r: LineEdit)
        ensures
            r.value@ == text@,
            r.cursor == text@.len(),
    {
        let value = chars_of(text);
        let cursor = value.len();
        LineEdit { value, cursor }
    }

    /// The text being edited.
    pub fn text(&self) -> (r: String)
        ensures
            r@ == self.value@,
    {
        string_of(&self.value)
    }

    /// One key.
    pub fn step(&mut self, key: Key) -> (r: EditStep)
        requires
            old(self).cursor <= old(self).value@.len(),
            old(self).value@.len() < usize::MAX,
        ensures
            final(self).cursor <= final(self).value@.len(),
            (final(self).value@, final(self).cursor as int, r) == edit_next(old(self).value@, old(self).cursor as int, key),
    {
        match key {
            Key::Esc => EditStep::Cancel,
            Key::Enter => EditStep::Save,
            Key::Backspace => {
                if self.cursor > 0 {
                    self.value.remove(self.cursor - 1);
                    self.cursor = self.cursor - 1;
                }
                EditStep::Continue
            },
            Key::Left => {
                if self.cursor > 0 {
                    self.cursor = self.cursor - 1;
                }
                EditStep::Continue
            },
            Key::Right => {
                if self.cursor < self.value.len() {
                    self.cursor = self.cursor + 1;
                }
                EditStep::Continue
            },
            Key::Char(c) => {
                self.value.insert(self.cursor, c);
                self.cursor = self.cursor + 1;
                EditStep::Continue
            },
            _ => EditStep::Continue,
        }
    }
}

/// The project named without asking: the one given on the command line,
/// else the one the working tree is bound to, else the one registered for
/// its git root.
pub fn known_project(explicit: Option<String>, bound: Option<String>, looked_up: Option<String>) -> (r: Option<String>)
    ensures
        r == (if explicit is Some { explicit } else if bound is Some { bound } else { looked_up }),
{
    if explicit.is_some() {
        explicit
    } else if bound.is_some() {
        bound
    } else {
        looked_up
    }
}

/// How a project is picked from the registered list.
#[derive(Debug, Clone)]
pub enum ListPick {
    Chosen(String),
    Fail(String),
    /// Ask in the picker.
    Interactive,
}

/// Picks from the registered projects (`count` of them, the first with
/// `first_id`): none is an error, a single one is taken (an error when it
/// has no id), several need the picker, which JSON mode does not allow.
pub fn pick_listed(count: usize, first_id: Option<String>, json_mode: bool) -> (r: ListPick)
    ensures
        count == 0 ==> (r matches ListPick::Fail(m) && m@ == "no projects; run `sunmao init` in a git repo"@),
        count == 1 ==> match first_id {
            Some(id) => r matches ListPick::Chosen(c) && c@ == id@,
            None => r matches ListPick::Fail(m) && m@ == "id"@,
        },
        count > 1 && json_mode ==> (r matches ListPick::Fail(m) && m@
            == "multiple projects; pass --project <id> (or use interactive TUI without --json)"@),
        count > 1 && !json_mode ==> r is Interactive,
{
    if count == 0 {
        ListPick::Fail(String::from_str("no projects; run `sunmao init` in a git repo"))
    } else if count == 1 {
        match first_id {
            Some(id) => ListPick::Chosen(id),
            None => ListPick::Fail(String::from_str("id")),
        }
    } else if json_mode {
        ListPick::Fail(String::from_str("multiple projects; pass --project <id> (or use interactive TUI without --json)"))
    } else {
        ListPick::Interactive
    }
}

/// The service's base URL: the one given on the command line, else the
/// configured one, else the local default.
pub fn choose_base_url(flag: Option<String>, configured: Option<String>) -> (r: String)
    ensures
        r@ == (match flag {
            Some(f) => f@,
            None => match configured {
                Some(c) => c@,
                None => "http://127.0.0.1:7420"@,
            },
        }),
{
    match flag {
        Some(f) => f,
        None => match configured {
            Some(c) => c,
            None => String::from_str("http://127.0.0.1:7420"),
        },
    }
}

/// The base the API client sends to: the base URL without trailing `/`.
pub fn api_base(base: &str) -> (r: String)
    ensures
        r@ == trim_end_char(base@, '/'),
{
    let mut v = chars_of(base);
    while v.len() > 0 && v[v.len() - 1] == '/'
        invariant
            trim_end_char(v@, '/') == trim_end_char(base@, '/'),
        decreases v.len(),
    {
        v.pop();
    }
    string_of(&v)
}

/// The local binding file written by `init`.
pub fn local_bind_toml(project_id: &str, base_url: &str) -> (r: String)
    ensures
        r@ == "project_id = \""@ + project_id@ + "\"\nbase_url = \""@ + base_url@ + "\"\n"@,
{
    String::from_str("project_id = \"").concat(project_id).concat("\"\nbase_url = \"").concat(base_url).concat("\"\n")
}

/// The text of an optional field, or `default`.
pub open spec fn or_text(o: Option<String>, default: Seq<char>) -> Seq<char> {
    match o {
        Some(s) => s@,
        None => default,
    }
}

fn text_or(o: &Option<String>, default: &str) -> (r: String)
    ensures
        r@ == or_text(*o, default@),
{
    match o {
        Some(s) => s.clone(),
        None => String::from_str(default),
    }
}

/// One line of `tree`: kind, state (the task state, else the scope state,
/// else `-`), path, id and title, separated by tabs; a missing kind, id or
/// title shows as `?`, a missing path as nothing.
pub fn tree_line(
    kind: &Option<String>,
    task_state: &Option<String>,
    scope_state: &Option<String>,
    path: &Option<String>,
    id: &Option<String>,
    title: &Option<String>,
) -> (r: String)
    ensures
        r@ == or_text(*kind, "?"@) + "\t"@ + (if task_state is Some { or_text(*task_state, ""@) } else { or_text(*scope_state, "-"@) })
            + "\t"@ + or_text(*path, ""@) + "\t"@ + or_text(*id, "?"@) + "\t"@ + or_text(*title, "?"@),
{
    let st = match task_state {
        Some(t) => t.clone(),
        None => text_or(scope_state, "-"),
    };
    text_or(kind, "?").concat("\t").concat(st.as_str()).concat("\t").concat(text_or(path, "").as_str()).concat(
        "\t",
    ).concat(text_or(id, "?").as_str()).concat("\t").concat(text_or(title, "?").as_str())
}

/// A byte that stays as it is in a URL: letters, digits and `-_.~/`.
pub open spec fn url_safe(b: int) -> bool {
    (0x41 <= b <= 0x5A) || (0x61 <= b <= 0x7A) || (0x30 <= b <= 0x39) || b == 0x2D || b == 0x5F || b == 0x2E || b == 0x7E
        || b == 0x2F
}

/// The upper-case hexadecimal digit for `d < 16`.
pub open spec fn hex_digit(d: int) -> char {
    if d < 10 {
        (0x30 + d) as char
    } else {
        (0x41 + d - 10) as char
    }
}

/// A byte written as `%XX`.
pub open spec fn percent(b: int) -> Seq<char> {
    seq!['%', hex_digit(b / 16), hex_digit(b % 16)]
}

/// A character as it is put in a URL: kept when it is a safe byte;
/// otherwise each byte of its UTF-8 form written `%XX` (no byte of a
/// character beyond ASCII is safe).
pub open spec fn char_in_url(c: char) -> Seq<char> {
    let n = c as int;
    if n < 0x80 {
        if url_safe(n) {
            seq![c]
        } else {
            percent(n)
        }
    } else if n < 0x800 {
        percent(0xC0 + n / 64) + percent(0x80 + n % 64)
    } else if n < 0x10000 {
        percent(0xE0 + n / 4096) + percent(0x80 + (n / 64) % 64) + percent(0x80 + n % 64)
    } else {
        percent(0xF0 + n / 262144) + percent(0x80 + (n / 4096) % 64) + percent(0x80 + (n / 64) % 64) + percent(
            0x80 + n % 64,
        )
    }
}

/// Text as it is put in a URL query, character by character.
pub open spec fn url_encoded(s: Seq<char>) -> Seq<char>
    decreases s.len(),
{
    if s.len() == 0 {
        Seq::empty()
    } else {
        url_encoded(s.drop_last()) + char_in_url(s.last())
    }
}

fn hex_char(d: u32) -> (c: char)
    requires
        d < 16,
    ensures
        c == hex_digit(d as int),
{
    if d == 0 {
        '0'
    } else if d == 1 {
        '1'
    } else if d == 2 {
        '2'
    } else if d == 3 {
        '3'
    } else if d == 4 {
        '4'
    } else if d == 5 {
        '5'
    } else if d == 6 {
        '6'
    } else if d == 7 {
        '7'
    } else if d == 8 {
        '8'
    } else if d == 9 {
        '9'
    } else if d == 10 {
        'A'
    } else if d == 11 {
        'B'
    } else if d == 12 {
        'C'
    } else if d == 13 {
        'D'
    } else if d == 14 {
        'E'
    } else {
        'F'
    }
}

fn push_percent(out: &mut Vec<char>, b: u32)
    requires
        b < 256,
    ensures
        final(out)@ == old(out)@ + percent(b as int),
{
    out.push('%');
    out.push(hex_char(b / 16));
    out.push(hex_char(b % 16));
    assert(out@ =~= old(out)@ + percent(b as int));
}

fn push_in_url(out: &mut Vec<char>, c: char)
    ensures
        final(out)@ == old(out)@ + char_in_url(c),
{
    let n = c as u32;
    assert(n <= 0x10FFFF);
    if n < 0x80 {
        if (0x41 <= n && n <= 0x5A) || (0x61 <= n && n <= 0x7A) || (0x30 <= n && n <= 0x39) || n == 0x2D || n == 0x5F
            || n == 0x2E || n == 0x7E || n == 0x2F {
            out.push(c);
            assert(out@ =~= old(out)@ + seq![c]);
        } else {
            push_percent(out, n);
        }
    } else if n < 0x800 {
        push_percent(out, 0xC0 + n / 64);
        push_percent(out, 0x80 + n % 64);
        assert(out@ =~= old(out)@ + char_in_url(c));
    } else if n < 0x10000 {
        push_percent(out, 0xE0 + n / 4096);
        push_percent(out, 0x80 + (n / 64) % 64);
        push_percent(out, 0x80 + n % 64);
        assert(out@ =~= old(out)@ + char_in_url(c));
    } else {
        push_percent(out, 0xF0 + n / 262144);
        push_percent(out, 0x80 + (n / 4096) % 64);
        push_percent(out, 0x80 + (n / 64) % 64);
        push_percent(out, 0x80 + n % 64);
        assert(out@ =~= old(out)@ + char_in_url(c));
    }
}

/// `s` encoded for a URL query: letters, digits and `-_.~/` are kept, every
/// other byte of its UTF-8 form is written `%XX`.
pub fn urlencoding_simple(s: &str) -> (r: String)
    ensures
        r@ == url_encoded(s@),
{
    let cs = chars_of(s);
    let mut out: Vec<char> = Vec::new();
    let mut i: usize = 0;
    while i < cs.len()
        invariant
            i <= cs@.len(),
            cs@ == s@,
            out@ == url_encoded(cs@.subrange(0, i as int)),
        decreases cs.len() - i,
    {
        let c = cs[i];
        proof {
            let pre = cs@.subrange(0, i + 1);
            assert(pre.drop_last() =~= cs@.subrange(0, i as int));
            assert(pre.last() == c);
        }
        push_in_url(&mut out, c);
        i = i + 1;
    }
    assert(cs@.subrange(0, cs@.len() as int) =~= cs@);
    string_of(&out)
}

} // verus!
