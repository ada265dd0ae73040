//! The user's presentation settings file: `name = value` lines, with `#`
//! comments.

use vstd::prelude::*;

use crate::outline::{char_lines_view, lines_spec, split_lines, trim_chars, trimmed};
use crate::text::{chars_of, concat3, decimal, decimal_text, index_of, string_of};

verus! {

/// Name of the settings file inside the configuration directory.
pub const FILE_NAME: &'static str = "config.toml";

/// A line of the settings file that cannot be read.
#[derive(Clone, Debug, PartialEq, Eq)]
pub struct ConfigError {
    /// Line number, counted from one.
    pub line: usize,
    /// What is wrong with the line.
    pub message: String,
}

/// What one line does to the `lines` setting read so far: a comment starts
/// at `#`, a blank line is skipped, and the only setting is `lines`, set once
/// to `true` or `false`.
pub open spec fn config_line(current: Option<bool>, raw: Seq<char>) -> Result<Option<bool>, Seq<char>> {
    let content = trimmed(raw.take(index_of(raw, '#')));
    if content.len() == 0 {
        Ok(current)
    } else {
        let eq = index_of(content, '=');
        if eq >= content.len() {
            Err("expected `name = value`"@)
        } else {
            let key = trimmed(content.take(eq));
            let value = trimmed(content.skip(eq + 1));
            if key != "lines"@ {
                Err("unknown setting `"@ + key + "`"@)
            } else if current is Some {
                Err("`lines` is configured more than once"@)
            } else if value == "true"@ {
                Ok(Some(true))
            } else if value == "false"@ {
                Ok(Some(false))
            } else {
                Err("`lines` must be `true` or `false`"@)
            }
        }
    }
}

/// The `lines` setting after reading the given lines, or the number and
/// message of the first line that cannot be read.
pub open spec fn config_state(lines: Seq<Seq<char>>) -> Result<Option<bool>, (int, Seq<char>)>
    decreases lines.len(),
{
    if lines.len() == 0 {
        Ok(None)
    } else {
        match config_state(lines.drop_last()) {
            Err(e) => Err(e),
            Ok(current) => match config_line(current, lines.last()) {
                Ok(v) => Ok(v),
                Err(m) => Err((lines.len() as int, m)),
            },
        }
    }
}

/// Whether hierarchy lines are on according to a settings file (on when it
/// does not say), or the first line that cannot be read.
pub open spec fn config_spec(text: Seq<char>) -> Result<bool, (int, Seq<char>)> {
    match config_state(lines_spec(text)) {
        Ok(v) => Ok(
            match v {
                Some(b) => b,
                None => true,
            },
        ),
        Err(e) => Err(e),
    }
}

proof fn lemma_config_error_persists(lines: Seq<Seq<char>>, k: int)
    requires
        0 <= k <= lines.len(),
        config_state(lines.take(k)) is Err,
    ensures
        config_state(lines) == config_state(lines.take(k)),
    decreases lines.len() - k,
{
    if k < lines.len() {
        assert(lines.take(k + 1).drop_last() =~= lines.take(k));
        lemma_config_error_persists(lines, k + 1);
    } else {
        assert(lines.take(k) =~= lines);
    }
}

fn same_chars(a: &Vec<char>, b: &str) -> (r: bool)
    ensures
        r == (a@ == b@),
{
    let other = chars_of(b);
    if a.len() != other.len() {
        return false;
    }
    let mut i: usize = 0;
    while i < a.len()
        invariant
            i <= a@.len() == other@.len(),
            other@ == b@,
            forall|j: int| 0 <= j < i ==> a@[j] == other@[j],
        decreases a@.len() - i,
    {
        if a[i] != other[i] {
            return false;
        }
        i += 1;
    }
    assert(a@ =~= other@);
    true
}

fn first_index(s: &Vec<char>, c: char) -> (r: usize)
    ensures
        r == index_of(s@, c),
        r <= s@.len(),
{
    let mut i: usize = 0;
    while i < s.len() && s[i] != c
        invariant
            i <= s@.len(),
            forall|j: int| 0 <= j < i ==> s@[j] != c,
        decreases s@.len() - i,
    {
        i += 1;
    }
    proof {
        crate::text::lemma_index_of(s@, c, i as int);
    }
    i
}

fn read_line(current: Option<bool>, raw: &Vec<char>) -> (r: Result<Option<bool>, String>)
    ensures
        match config_line(current, raw@) {
            Ok(v) => r == Ok::<Option<bool>, String>(v),
            Err(m) => r matches Err(e) && e@ == m,
        },
{
    let hash = first_index(raw, '#');
    let before = crate::outline::copy_range(raw, 0, hash);
    assert(before@ =~= raw@.take(hash as int));
    let content = trim_chars(&before);
    if content.len() == 0 {
        return Ok(current);
    }
    let eq = first_index(&content, '=');
    if eq >= content.len() {
        return Err(String::from_str("expected `name = value`"));
    }
    let key_part = crate::outline::copy_range(&content, 0, eq);
    let value_part = crate::outline::copy_range(&content, eq + 1, content.len());
    assert(key_part@ =~= content@.take(eq as int));
    assert(value_part@ =~= content@.skip(eq + 1));
    let key = trim_chars(&key_part);
    let value = trim_chars(&value_part);
    if !same_chars(&key, "lines") {
        let name = string_of(key.as_slice());
        return Err(concat3("unknown setting `", name.as_str(), "`"));
    }
    if current.is_some() {
        return Err(String::from_str("`lines` is configured more than once"));
    }
    if same_chars(&value, "true") {
        Ok(Some(true))
    } else if same_chars(&value, "false") {
        Ok(Some(false))
    } else {
        Err(String::from_str("`lines` must be `true` or `false`"))
    }
}

/// Reads the settings file: whether hierarchy lines are on (they are when
/// the file does not say), or the first line that cannot be read.
pub fn parse_config(contents: &str) -> (r: Result<bool, ConfigError>)
    ensures
        match config_spec(contents@) {
            Ok(b) => r == Ok::<bool, ConfigError>(b),
            Err((line, message)) => r matches Err(e) && e.line == line && e.message@ == message,
        },
{
    let lines = split_lines(contents);
    let ghost all = char_lines_view(lines@);
    let mut current: Option<bool> = None;
    let mut i: usize = 0;
    assert(all.take(0) =~= seq![]);
    while i < lines.len()
        invariant
            i <= lines@.len(),
            all == char_lines_view(lines@),
            all == lines_spec(contents@),
            config_state(all.take(i as int)) == Ok::<Option<bool>, (int, Seq<char>)>(current),
        decreases lines@.len() - i,
    {
        assert(all.take(i + 1).drop_last() =~= all.take(i as int));
        assert(all.take(i + 1).last() == lines@[i as int]@);
        match read_line(current, &lines[i]) {
            Ok(v) => current = v,
            Err(message) => {
                proof {
                    lemma_config_error_persists(all, i + 1);
                }
                return Err(ConfigError { line: i + 1, message });
            },
        }
        i += 1;
    }
    assert(all.take(i as int) =~= all);
    Ok(
        match current {
            Some(b) => b,
            None => true,
        },
    )
}

/// The message of an unreadable settings file at `path`.
pub open spec fn config_error_text(path: Seq<char>, line: nat, message: Seq<char>) -> Seq<char> {
    "invalid config "@ + path + " at line "@ + decimal(line) + ": "@ + message
}

/// The message of an unreadable settings file, naming its path and line.
pub fn invalid_config(path: &str, line: usize, message: &str) -> (r: String)
    ensures
        r@ == config_error_text(path@, line as nat, message@),
{
    let mut r = concat3("invalid config ", path, " at line ");
    r.append(decimal_text(line as u64).as_str());
    r.append(": ");
    r.append(message);
    r
}

/// The contents written for a `lines` setting.
pub open spec fn setting_text(enabled: bool) -> Seq<char> {
    if enabled {
        "lines = true\n"@
    } else {
        "lines = false\n"@
    }
}

/// The contents written when the `lines` setting changes.
pub fn lines_setting(enabled: bool) -> (r: String)
    ensures
        r@ == setting_text(enabled),
{
    if enabled {
        String::from_str("lines = true\n")
    } else {
        String::from_str("lines = false\n")
    }
}

/// A `lines` setting written by the client reads back as the same value.
pub proof fn lemma_setting_round_trip(enabled: bool)
    ensures
        config_spec(setting_text(enabled)) == Ok::<bool, (int, Seq<char>)>(enabled),
{
    reveal_strlit("lines = true\n");
    reveal_strlit("lines = false\n");
    reveal_strlit("lines");
    reveal_strlit("true");
    reveal_strlit("false");
    let s = setting_text(enabled);
    let e = s.len() - 1;
    let raw = s.take(e);
    assert forall|j: int| 0 <= j < e implies s[j] != '\n' by {}
    crate::outline::lemma_first_newline(s, e);
    assert(s.skip(e + 1) =~= Seq::<char>::empty());
    assert(lines_spec(s.skip(e + 1)) =~= Seq::<Seq<char>>::empty());
    assert(raw.last() == 'e');
    assert(lines_spec(s) =~= seq![raw]);
    assert(seq![raw].drop_last() =~= Seq::<Seq<char>>::empty());
    // The whole line is the setting: no comment, no white space around it.
    assert forall|j: int| 0 <= j < raw.len() implies raw[j] != '#' by {}
    crate::text::lemma_index_of(raw, '#', raw.len() as int);
    assert(raw.take(raw.len() as int) =~= raw);
    assert(crate::outline::leading_ws(raw) == 0);
    assert(crate::outline::trim_end_at(raw, raw.len() as int) == raw.len());
    assert(trimmed(raw) =~= raw);
    // `lines` before the `=`.
    assert forall|j: int| 0 <= j < 6 implies raw[j] != '=' by {}
    crate::text::lemma_index_of(raw, '=', 6);
    let key = raw.take(6);
    assert(crate::outline::leading_ws(key) == 0);
    assert(crate::outline::trim_end_at(key, 5) == 5);
    assert(crate::outline::trim_end_at(key, 6) == 5);
    assert(trimmed(key) =~= "lines"@);
    // The value after it.
    let value = raw.skip(7);
    assert(crate::outline::leading_ws(value.drop_first()) == 0);
    assert(crate::outline::leading_ws(value) == 1);
    assert(crate::outline::trim_end_at(value, value.len() as int) == value.len());
    if enabled {
        assert(trimmed(value) =~= "true"@);
    } else {
        assert(trimmed(value) =~= "false"@);
        assert(trimmed(value).len() != "true"@.len());
    }
    assert(config_line(None, raw) == Ok::<Option<bool>, Seq<char>>(Some(enabled)));
    assert(config_state(Seq::<Seq<char>>::empty()) == Ok::<Option<bool>, (int, Seq<char>)>(None));
    assert(seq![raw].last() == raw);
    assert(config_state(seq![raw]) == Ok::<Option<bool>, (int, Seq<char>)>(Some(enabled)));
}

} // verus!
