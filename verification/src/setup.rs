//! The workspace folder picker: starting locations, the directory explorer
//! and the name of a new folder.

use vstd::prelude::*;
use vstd::multiset::Multiset;

use crate::keys::{Key, KeyCode};
use crate::outline::{trim_chars, trimmed};
use crate::prompts::without_last_char;
use crate::text::{chars_of, push_char, string_of};

verus! {

/// Why a new folder name was refused.
pub const SIMPLE_NAME_MESSAGE: &'static str = "enter a simple folder name";

/// A name for a new folder inside the current one: surrounding white space
/// is dropped, and what is left must be a single path component (not
/// empty, not `.` or `..`, without `/` or `\`).
pub open spec fn new_folder_name_spec(name: Seq<char>) -> Option<Seq<char>> {
    let t = trimmed(name);
    if t.len() == 0 || t == seq!['.'] || t == seq!['.', '.'] || exists|i: int|
        0 <= i < t.len() && (t[i] == '/' || t[i] == '\\') {
        None
    } else {
        Some(t)
    }
}

/// The trimmed name of a new folder, or `None` when it is not a simple
/// folder name.
pub fn new_folder_name(name: &str) -> (r: Option<String>)
    ensures
        match new_folder_name_spec(name@) {
            Some(t) => r matches Some(s) && s@ == t,
            None => r is None,
        },
{
    let chars = chars_of(name);
    let t = trim_chars(&chars);
    let n = t.len();
    if n == 0 || (n == 1 && t[0] == '.') || (n == 2 && t[0] == '.' && t[1] == '.') {
        proof {
            if n == 1 {
                assert(t@ =~= seq!['.']);
            }
            if n == 2 {
                assert(t@ =~= seq!['.', '.']);
            }
        }
        return None;
    }
    let mut i: usize = 0;
    while i < n
        invariant
            i <= n == t@.len(),
            t@ == trimmed(name@),
            forall|j: int| 0 <= j < i ==> t@[j] != '/' && t@[j] != '\\',
        decreases n - i,
    {
        if t[i] == '/' || t[i] == '\\' {
            assert(trimmed(name@)[i as int] == '/' || trimmed(name@)[i as int] == '\\');
            return None;
        }
        i += 1;
    }
    proof {
        if n == 1 {
            assert(t@ != seq!['.']) by {
                assert(t@[0] != '.');
            }
        }
        if n == 2 {
            assert(t@ != seq!['.', '.']) by {
                assert(t@[0] != '.' || t@[1] != '.');
            }
        }
        if t@ == seq!['.'] {
            assert(t@.len() == 1);
        }
        if t@ == seq!['.', '.'] {
            assert(t@.len() == 2);
        }
    }
    Some(string_of(t.as_slice()))
}

/// The selection moved by `offset` rows in a list of `len` entries: at
/// least the first entry, at most the last.
pub open spec fn moved_selection(selected: usize, len: usize, offset: isize) -> usize {
    let last: int = if len >= 1 {
        len - 1
    } else {
        0
    };
    if offset < 0 {
        if selected + offset >= 0 {
            (selected + offset) as usize
        } else {
            0
        }
    } else {
        let moved: int = if selected + offset <= usize::MAX {
            selected + offset
        } else {
            usize::MAX as int
        };
        if moved <= last {
            moved as usize
        } else {
            last as usize
        }
    }
}

/// Moves a selection by `offset` rows within a list of `len` entries.
pub fn move_selection(selected: usize, len: usize, offset: isize) -> (r: usize)
    ensures
        r == moved_selection(selected, len, offset),
{
    let last = len.saturating_sub(1);
    if offset < 0 {
        let back: usize = if offset == isize::MIN {
            (isize::MAX as usize) + 1
        } else {
            (-offset) as usize
        };
        selected.saturating_sub(back)
    } else {
        let moved = selected.saturating_add(offset as usize);
        if moved <= last {
            moved
        } else {
            last
        }
    }
}

/// The first row shown so that the selected row stays in a body of
/// `height` rows, starting from `scroll`.
pub open spec fn scroll_to_selection(selected: usize, scroll: usize, height: usize) -> usize {
    if selected < scroll {
        selected
    } else if height > 0 && selected >= scroll + height {
        (selected + 1 - height) as usize
    } else {
        scroll
    }
}

/// Scrolls a list so that its selected row stays in view.
pub fn keep_selection_in_view(selected: usize, scroll: usize, height: usize) -> (r: usize)
    ensures
        r == scroll_to_selection(selected, scroll, height),
{
    if selected < scroll {
        selected
    } else if height > 0 && selected - scroll >= height {
        selected - height + 1
    } else {
        scroll
    }
}

/// The first starting location shown in a body of `height` rows so that
/// the selected one is its last row at most.
pub fn first_location_row(selected: usize, height: usize) -> (r: usize)
    ensures
        r == (if selected + 1 <= usize::MAX {
            if selected + 1 >= height {
                selected + 1 - height
            } else {
                0
            }
        } else if usize::MAX >= height {
            usize::MAX - height
        } else {
            0
        }),
{
    selected.saturating_add(1).saturating_sub(height)
}

/// What a key does on the screen of starting locations.
#[derive(Clone, Copy, Debug, PartialEq, Eq, Structural)]
pub enum LocationAction {
    /// Leave the picker without a folder.
    Cancel,
    /// Select this location.
    Select(usize),
    /// Browse the selected location.
    Browse,
    /// Nothing.
    Ignore,
}

/// What a key does on the screen of starting locations, with `selected`
/// the selected one among `len` (at least one).
pub open spec fn location_key_spec(key: Key, selected: usize, len: usize) -> LocationAction {
    match key.code {
        KeyCode::Esc => LocationAction::Cancel,
        KeyCode::Up => LocationAction::Select(moved_selection(selected, len, -1isize)),
        KeyCode::Down => LocationAction::Select(moved_selection(selected, len, 1isize)),
        KeyCode::Home => LocationAction::Select(0),
        KeyCode::End => LocationAction::Select((len - 1) as usize),
        KeyCode::Enter | KeyCode::Right => LocationAction::Browse,
        KeyCode::Char(c) => if c == 'q' {
            LocationAction::Cancel
        } else if c == 'k' {
            LocationAction::Select(moved_selection(selected, len, -1isize))
        } else if c == 'j' {
            LocationAction::Select(moved_selection(selected, len, 1isize))
        } else if c == 'g' {
            LocationAction::Select(0)
        } else if c == 'G' {
            LocationAction::Select((len - 1) as usize)
        } else if c == 'l' {
            LocationAction::Browse
        } else {
            LocationAction::Ignore
        },
        _ => LocationAction::Ignore,
    }
}

/// What a key does on the screen of starting locations.
pub fn location_key_action(key: Key, selected: usize, len: usize) -> (r: LocationAction)
    requires
        len >= 1,
    ensures
        r == location_key_spec(key, selected, len),
{
    match key.code {
        KeyCode::Esc => LocationAction::Cancel,
        KeyCode::Up => LocationAction::Select(move_selection(selected, len, -1)),
        KeyCode::Down => LocationAction::Select(move_selection(selected, len, 1)),
        KeyCode::Home => LocationAction::Select(0),
        KeyCode::End => LocationAction::Select(len - 1),
        KeyCode::Enter | KeyCode::Right => LocationAction::Browse,
        KeyCode::Char(c) => if c == 'q' {
            LocationAction::Cancel
        } else if c == 'k' {
            LocationAction::Select(move_selection(selected, len, -1))
        } else if c == 'j' {
            LocationAction::Select(move_selection(selected, len, 1))
        } else if c == 'g' {
            LocationAction::Select(0)
        } else if c == 'G' {
            LocationAction::Select(len - 1)
        } else if c == 'l' {
            LocationAction::Browse
        } else {
            LocationAction::Ignore
        },
        _ => LocationAction::Ignore,
    }
}

/// What a key does in the directory explorer.
#[derive(Clone, Copy, Debug, PartialEq, Eq, Structural)]
pub enum ExplorerKeyAction {
    /// Leave the picker without a folder.
    Cancel,
    /// Return to the starting locations.
    Locations,
    /// Choose the current directory.
    ChooseHere,
    /// Start typing the name of a new folder.
    NewFolder,
    /// Show or hide hidden folders.
    ToggleHidden,
    /// Move the selection by this many rows.
    Move(isize),
    /// Select the first folder.
    First,
    /// Select the last folder.
    Last,
    /// Open the parent directory.
    Parent,
    /// Open the selected folder.
    Open,
    /// Nothing.
    Ignore,
}

/// What a key does in the directory explorer (outside new-folder input).
pub open spec fn explorer_key_spec(key: Key) -> ExplorerKeyAction {
    match key.code {
        KeyCode::Esc => ExplorerKeyAction::Locations,
        KeyCode::Up => ExplorerKeyAction::Move(-1isize),
        KeyCode::Down => ExplorerKeyAction::Move(1isize),
        KeyCode::PageUp => ExplorerKeyAction::Move(-10isize),
        KeyCode::PageDown => ExplorerKeyAction::Move(10isize),
        KeyCode::Home => ExplorerKeyAction::First,
        KeyCode::End => ExplorerKeyAction::Last,
        KeyCode::Left | KeyCode::Backspace => ExplorerKeyAction::Parent,
        KeyCode::Enter | KeyCode::Right => ExplorerKeyAction::Open,
        KeyCode::Char(c) => if c == 'q' {
            ExplorerKeyAction::Cancel
        } else if c == 'b' {
            ExplorerKeyAction::Locations
        } else if c == ' ' {
            ExplorerKeyAction::ChooseHere
        } else if c == 'n' {
            ExplorerKeyAction::NewFolder
        } else if c == '.' {
            ExplorerKeyAction::ToggleHidden
        } else if c == 'k' {
            ExplorerKeyAction::Move(-1isize)
        } else if c == 'j' {
            ExplorerKeyAction::Move(1isize)
        } else if c == 'g' {
            ExplorerKeyAction::First
        } else if c == 'G' {
            ExplorerKeyAction::Last
        } else if c == 'h' {
            ExplorerKeyAction::Parent
        } else if c == 'l' {
            ExplorerKeyAction::Open
        } else {
            ExplorerKeyAction::Ignore
        },
        _ => ExplorerKeyAction::Ignore,
    }
}

/// What a key does in the directory explorer.
pub fn explorer_key_action(key: Key) -> (r: ExplorerKeyAction)
    ensures
        r == explorer_key_spec(key),
{
    match key.code {
        KeyCode::Esc => ExplorerKeyAction::Locations,
        KeyCode::Up => ExplorerKeyAction::Move(-1),
        KeyCode::Down => ExplorerKeyAction::Move(1),
        KeyCode::PageUp => ExplorerKeyAction::Move(-10),
        KeyCode::PageDown => ExplorerKeyAction::Move(10),
        KeyCode::Home => ExplorerKeyAction::First,
        KeyCode::End => ExplorerKeyAction::Last,
        KeyCode::Left | KeyCode::Backspace => ExplorerKeyAction::Parent,
        KeyCode::Enter | KeyCode::Right => ExplorerKeyAction::Open,
        KeyCode::Char(c) => if c == 'q' {
            ExplorerKeyAction::Cancel
        } else if c == 'b' {
            ExplorerKeyAction::Locations
        } else if c == ' ' {
            ExplorerKeyAction::ChooseHere
        } else if c == 'n' {
            ExplorerKeyAction::NewFolder
        } else if c == '.' {
            ExplorerKeyAction::ToggleHidden
        } else if c == 'k' {
            ExplorerKeyAction::Move(-1)
        } else if c == 'j' {
            ExplorerKeyAction::Move(1)
        } else if c == 'g' {
            ExplorerKeyAction::First
        } else if c == 'G' {
            ExplorerKeyAction::Last
        } else if c == 'h' {
            ExplorerKeyAction::Parent
        } else if c == 'l' {
            ExplorerKeyAction::Open
        } else {
            ExplorerKeyAction::Ignore
        },
        _ => ExplorerKeyAction::Ignore,
    }
}

broadcast use vstd::seq_lib::group_to_multiset_ensures, vstd::multiset::group_multiset_axioms;

/// A folder listed by the explorer.
#[derive(Debug, PartialEq, Eq)]
pub struct Directory {
    /// Its name, shown in the list.
    pub name: String,
    /// Its path.
    pub path: std::path::PathBuf,
}

/// What `str::to_lowercase` gives for `s`: its Unicode lowercase mapping.
pub uninterp spec fn lowercase(s: Seq<char>) -> Seq<char>;

/// `str::to_lowercase`: the Unicode lowercase form of `s`. The contract
/// names the result and claims nothing more of it.
#[verifier::external_body]
pub(crate) fn to_lowercase(s: &str) -> (r: String)
    ensures
        r@ == lowercase(s@),
{
    s.to_lowercase()
}

/// Whether `a` comes strictly before `b` in code point order, as strings
/// compare.
pub open spec fn chars_less(a: Seq<char>, b: Seq<char>) -> bool
    decreases a.len(),
{
    if a.len() == 0 {
        b.len() > 0
    } else if b.len() == 0 {
        false
    } else if a[0] != b[0] {
        a[0] < b[0]
    } else {
        chars_less(a.drop_first(), b.drop_first())
    }
}

proof fn lemma_chars_less_irreflexive(a: Seq<char>)
    ensures
        !chars_less(a, a),
    decreases a.len(),
{
    if a.len() > 0 {
        lemma_chars_less_irreflexive(a.drop_first());
    }
}

proof fn lemma_chars_less_transitive(a: Seq<char>, b: Seq<char>, c: Seq<char>)
    requires
        chars_less(a, b),
        chars_less(b, c),
    ensures
        chars_less(a, c),
    decreases a.len(),
{
    if a.len() > 0 && b.len() > 0 && c.len() > 0 && a[0] == b[0] && b[0] == c[0] {
        lemma_chars_less_transitive(a.drop_first(), b.drop_first(), c.drop_first());
    }
}

proof fn lemma_chars_less_total(a: Seq<char>, b: Seq<char>)
    requires
        !chars_less(a, b),
        !chars_less(b, a),
    ensures
        a == b,
    decreases a.len(),
{
    if a.len() > 0 && b.len() > 0 {
        if a[0] == b[0] {
            lemma_chars_less_total(a.drop_first(), b.drop_first());
            assert(a =~= seq![a[0]] + a.drop_first());
            assert(b =~= seq![b[0]] + b.drop_first());
        }
    } else {
        assert(a.len() == 0 && b.len() == 0);
        assert(a =~= b);
    }
}

proof fn lemma_chars_less_skip(a: Seq<char>, b: Seq<char>, i: int)
    requires
        0 <= i <= a.len(),
        i <= b.len(),
        forall|j: int| 0 <= j < i ==> a[j] == b[j],
    ensures
        chars_less(a, b) == chars_less(a.skip(i), b.skip(i)),
    decreases i,
{
    if i > 0 {
        lemma_chars_less_skip(a.drop_first(), b.drop_first(), i - 1);
        assert(a.drop_first().skip(i - 1) =~= a.skip(i));
        assert(b.drop_first().skip(i - 1) =~= b.skip(i));
    } else {
        assert(a.skip(0) =~= a);
        assert(b.skip(0) =~= b);
    }
}

fn chars_less_exec(a: &Vec<char>, b: &Vec<char>) -> (r: bool)
    ensures
        r == chars_less(a@, b@),
{
    let mut i: usize = 0;
    while i < a.len() && i < b.len() && a[i] == b[i]
        invariant
            i <= a@.len() && i <= b@.len(),
            forall|j: int| 0 <= j < i ==> a@[j] == b@[j],
        decreases a@.len() - i,
    {
        i += 1;
    }
    proof {
        lemma_chars_less_skip(a@, b@, i as int);
    }
    if i == a.len() {
        i < b.len()
    } else if i == b.len() {
        false
    } else {
        assert(a@.skip(i as int)[0] == a@[i as int]);
        assert(b@.skip(i as int)[0] == b@[i as int]);
        a[i] < b[i]
    }
}

/// Whether the explorer lists `a` before `b`: by lowercase name, then by
/// name.
pub open spec fn listed_before(a: Directory, b: Directory) -> bool {
    let la = lowercase(a.name@);
    let lb = lowercase(b.name@);
    chars_less(la, lb) || (la == lb && chars_less(a.name@, b.name@))
}

proof fn lemma_listed_before_irreflexive(a: Directory)
    ensures
        !listed_before(a, a),
{
    lemma_chars_less_irreflexive(lowercase(a.name@));
    lemma_chars_less_irreflexive(a.name@);
}

proof fn lemma_listed_before_transitive(a: Directory, b: Directory, c: Directory)
    requires
        listed_before(a, b),
        listed_before(b, c),
    ensures
        listed_before(a, c),
{
    let la = lowercase(a.name@);
    let lb = lowercase(b.name@);
    let lc = lowercase(c.name@);
    if chars_less(la, lb) && chars_less(lb, lc) {
        lemma_chars_less_transitive(la, lb, lc);
    } else if chars_less(la, lb) {
        assert(lb == lc);
    } else if chars_less(lb, lc) {
        assert(la == lb);
    } else {
        lemma_chars_less_transitive(a.name@, b.name@, c.name@);
    }
}

/// Whether `s` lists no folder after one that comes later.
pub open spec fn directories_sorted(s: Seq<Directory>) -> bool {
    forall|i: int, j: int| 0 <= i < j < s.len() ==> !listed_before(s[j], s[i])
}

fn comes_before(a: &Directory, b: &Directory) -> (r: bool)
    ensures
        r == listed_before(*a, *b),
{
    let la = chars_of(to_lowercase(a.name.as_str()).as_str());
    let lb = chars_of(to_lowercase(b.name.as_str()).as_str());
    if chars_less_exec(&la, &lb) {
        return true;
    }
    if chars_less_exec(&lb, &la) {
        return false;
    }
    proof {
        lemma_chars_less_total(la@, lb@);
    }
    let na = chars_of(a.name.as_str());
    let nb = chars_of(b.name.as_str());
    chars_less_exec(&na, &nb)
}

/// Whether a folder is hidden: its name starts with a dot.
pub open spec fn is_hidden(name: Seq<char>) -> bool {
    name.len() > 0 && name[0] == '.'
}

/// The folders the explorer shows: hidden ones only when asked.
pub open spec fn shown_directories(entries: Seq<Directory>, show_hidden: bool) -> Seq<Directory>
    decreases entries.len(),
{
    if entries.len() == 0 {
        seq![]
    } else {
        let rest = shown_directories(entries.drop_last(), show_hidden);
        if show_hidden || !is_hidden(entries.last().name@) {
            rest.push(entries.last())
        } else {
            rest
        }
    }
}

fn insertion_place(sorted: &Vec<Directory>, x: &Directory) -> (k: usize)
    ensures
        k <= sorted@.len(),
        forall|i: int| 0 <= i < k ==> !listed_before(*x, #[trigger] sorted@[i]),
        k < sorted@.len() ==> listed_before(*x, sorted@[k as int]),
{
    let mut k: usize = 0;
    while k < sorted.len() && !comes_before(x, &sorted[k])
        invariant
            k <= sorted@.len(),
            forall|i: int| 0 <= i < k ==> !listed_before(*x, #[trigger] sorted@[i]),
        decreases sorted@.len() - k,
    {
        k += 1;
    }
    k
}

/// The folders of a directory as the explorer lists them: hidden ones only
/// when asked, ordered by lowercase name, then by name.
pub fn list_directories(entries: Vec<Directory>, show_hidden: bool) -> (r: Vec<Directory>)
    ensures
        directories_sorted(r@),
        r@.to_multiset() == shown_directories(entries@, show_hidden).to_multiset(),
{
    let ghost all = entries@;
    let mut source = entries;
    let mut rest: Vec<Directory> = Vec::new();
    let ghost mut taken: int = 0;
    assert(all.skip(0) =~= all);
    assert(rest@ =~= shown_directories(all.take(0), show_hidden));
    while source.len() > 0
        invariant
            0 <= taken <= all.len(),
            source@ == all.skip(taken),
            rest@ == shown_directories(all.take(taken), show_hidden),
        decreases source@.len(),
    {
        let ghost before = source@;
        let entry = source.remove(0);
        proof {
            assert(entry == all[taken]);
            assert(all.take(taken + 1).drop_last() =~= all.take(taken));
            assert(all.take(taken + 1).last() == all[taken]);
            assert(source@ =~= all.skip(taken + 1));
        }
        let name = chars_of(entry.name.as_str());
        let hidden = name.len() > 0 && name[0] == '.';
        if show_hidden || !hidden {
            rest.push(entry);
        }
        proof {
            taken = taken + 1;
        }
    }
    assert(all.take(taken) =~= all);
    let ghost kept = rest@;
    let mut sorted: Vec<Directory> = Vec::new();
    assert(sorted@.to_multiset() =~= Multiset::<Directory>::empty());
    while rest.len() > 0
        invariant
            directories_sorted(sorted@),
            sorted@.to_multiset().add(rest@.to_multiset()) == kept.to_multiset(),
        decreases rest@.len(),
    {
        let ghost before_rest = rest@;
        let ghost before_sorted = sorted@;
        let x = rest.remove(0);
        let k = insertion_place(&sorted, &x);
        sorted.insert(k, x);
        proof {
            vstd::seq_lib::to_multiset_remove(before_rest, 0);
            vstd::seq_lib::to_multiset_insert(before_sorted, k as int, x);
            assert(sorted@.to_multiset().add(rest@.to_multiset()) =~= kept.to_multiset());
            assert forall|a: int, b: int| 0 <= a < b < sorted@.len() implies !listed_before(
                sorted@[b],
                sorted@[a],
            ) by {
                if b < k {
                    assert(sorted@[a] == before_sorted[a] && sorted@[b] == before_sorted[b]);
                } else if b == k {
                    assert(sorted@[a] == before_sorted[a]);
                } else if a < k {
                    assert(sorted@[a] == before_sorted[a] && sorted@[b] == before_sorted[b - 1]);
                } else if a == k {
                    assert(sorted@[b] == before_sorted[b - 1]);
                    assert(listed_before(x, before_sorted[k as int]));
                    if listed_before(before_sorted[b - 1], x) {
                        lemma_listed_before_transitive(
                            before_sorted[b - 1],
                            x,
                            before_sorted[k as int],
                        );
                        if b - 1 == k {
                            lemma_listed_before_irreflexive(before_sorted[k as int]);
                        }
                    }
                } else {
                    assert(sorted@[a] == before_sorted[a - 1] && sorted@[b] == before_sorted[b
                        - 1]);
                }
            }
        }
    }
    assert(rest@.to_multiset() =~= Multiset::<Directory>::empty());
    sorted
}

/// What a key does to the name of a new folder being typed.
#[derive(Clone, Copy, Debug, PartialEq, Eq, Structural)]
pub enum NewFolderStep {
    /// Escape: stop naming a new folder.
    Cancel,
    /// Enter: create the folder with the typed name.
    Create,
    /// The name was edited (the status is cleared).
    Edited,
    /// Nothing happened.
    Unchanged,
}

/// The name after a key, and what the key does.
pub open spec fn new_folder_key_spec(name: Seq<char>, key: Key) -> (Seq<char>, NewFolderStep) {
    match key.code {
        KeyCode::Esc => (name, NewFolderStep::Cancel),
        KeyCode::Enter => (name, NewFolderStep::Create),
        KeyCode::Backspace => (
            if name.len() == 0 {
                name
            } else {
                name.drop_last()
            },
            NewFolderStep::Edited,
        ),
        KeyCode::Char(c) => if key.modifiers.control {
            (name, NewFolderStep::Unchanged)
        } else {
            (name.push(c), NewFolderStep::Edited)
        },
        _ => (name, NewFolderStep::Unchanged),
    }
}

/// Applies a key to the name of a new folder being typed: Backspace drops
/// its last character, a character without Control extends it.
pub fn new_folder_key(name: &mut String, key: Key) -> (r: NewFolderStep)
    ensures
        (final(name)@, r) == new_folder_key_spec(old(name)@, key),
{
    match key.code {
        KeyCode::Esc => NewFolderStep::Cancel,
        KeyCode::Enter => NewFolderStep::Create,
        KeyCode::Backspace => {
            *name = without_last_char(name.as_str());
            NewFolderStep::Edited
        },
        KeyCode::Char(c) => if key.modifiers.control {
            NewFolderStep::Unchanged
        } else {
            push_char(name, c);
            NewFolderStep::Edited
        },
        _ => NewFolderStep::Unchanged,
    }
}

} // verus!
