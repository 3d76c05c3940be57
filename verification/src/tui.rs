//! The state of the terminal interface: the tabs, the search input with its
//! cursor, and what each key does. Drawing and reading keys are left to the
//! program; this module decides.

use crate::text::decimal;
use vstd::prelude::*;

verus! {

/// The tabs of the interface, from left to right.
#[derive(Debug, Clone, Copy, PartialEq, Eq, Structural)]
pub enum Tab {
    Torrents,
    Settings,
    Search,
}

/// The pages of details of a torrent.
#[derive(Debug, Clone, Copy, PartialEq, Eq, Structural)]
pub enum Details {
    General,
    Trackers,
    Peers,
    HttpSources,
    Content,
}

/// What a torrent is doing, as the list of torrents filters by it.
#[derive(Debug, Clone, Copy, PartialEq, Eq, Structural)]
pub enum TorrentState {
    Downloading,
    Seeding,
    /// Downloading and uploading.
    Active,
    Paused,
    Queued,
    Complete,
}

/// How far a torrent has come.
#[derive(Debug, Clone, Copy, PartialEq, Eq, Structural)]
pub enum TorrentStatus {
    /// The download was stopped before its end.
    Paused,
    /// Parts of the content are still to be fetched.
    Downloading,
    /// The download has ended and the content is only given out.
    Seeding,
    /// The wanted ratio was reached and all traffic has stopped.
    Completed,
}

/// The number of digits of `n` in base ten.
pub fn num_length(n: usize) -> (r: usize)
    ensures
        r == decimal(n as nat).len(),
{
    let mut count: usize = 1;
    let mut rest: usize = n;
    assert(rest as nat * pow10(0) == n) by (nonlinear_arith)
        requires
            pow10(0) == 1,
            rest == n,
    ;
    while rest >= 10
        invariant
            1 <= count <= 20,
            decimal(n as nat).len() == decimal(rest as nat).len() + count - 1,
            rest as nat * pow10((count - 1) as nat) <= n,
        decreases rest,
    {
        proof {
            lemma_pow10_step((count - 1) as nat);
            assert(rest as nat * pow10((count - 1) as nat) >= 10 * pow10((count - 1) as nat))
                by (nonlinear_arith)
                requires
                    rest >= 10,
            ;
            assert((rest / 10) as nat * pow10(count as nat) <= rest as nat * pow10(
                (count - 1) as nat,
            )) by (nonlinear_arith)
                requires
                    pow10(count as nat) == 10 * pow10((count - 1) as nat),
            ;
            if count == 20 {
                lemma_pow10_20();
            }
        }
        rest = rest / 10;
        count = count + 1;
    }
    count
}

/// Ten to the power `e`.
pub open spec fn pow10(e: nat) -> nat
    decreases e,
{
    if e == 0 {
        1
    } else {
        10 * pow10((e - 1) as nat)
    }
}

/// Each power of ten is ten times the one before, and is positive.
pub proof fn lemma_pow10_step(e: nat)
    ensures
        pow10(e + 1) == 10 * pow10(e),
        pow10(e) > 0,
    decreases e,
{
    if e > 0 {
        lemma_pow10_step((e - 1) as nat);
    }
}

/// Ten to the power twenty does not fit a `usize`.
pub proof fn lemma_pow10_20()
    ensures
        pow10(20) > usize::MAX,
{
    reveal_with_fuel(pow10, 21);
}

impl Tab {
    /// The place of the tab, counted from the left and from zero.
    pub open spec fn index(self) -> nat {
        match self {
            Tab::Torrents => 0,
            Tab::Settings => 1,
            Tab::Search => 2,
        }
    }

    /// The tab to the left, or this tab where there is none.
    pub fn previous(self) -> (r: Tab)
        ensures
            r == previous_tab(self),
            r.index() == if self.index() == 0 {
                0
            } else {
                self.index() - 1
            },
    {
        match self {
            Tab::Torrents => Tab::Torrents,
            Tab::Settings => Tab::Torrents,
            Tab::Search => Tab::Settings,
        }
    }

    /// The tab to the right, or this tab where there is none.
    pub fn next(self) -> (r: Tab)
        ensures
            r == next_tab(self),
            r.index() == if self.index() == 2 {
                2
            } else {
                self.index() + 1
            },
    {
        match self {
            Tab::Torrents => Tab::Settings,
            Tab::Settings => Tab::Search,
            Tab::Search => Tab::Search,
        }
    }

    /// The title of the tab, with the key that selects it.
    pub fn title(self) -> (r: &'static str)
        ensures
            r@ == match self {
                Tab::Torrents => "Torrents [1]"@,
                Tab::Settings => "Settings [2]"@,
                Tab::Search => "Search DHT [3]"@,
            },
    {
        match self {
            Tab::Torrents => "Torrents [1]",
            Tab::Settings => "Settings [2]",
            Tab::Search => "Search DHT [3]",
        }
    }
}

impl Default for Tab {
    fn default() -> (r: Tab)
        ensures
            r == Tab::Torrents,
    {
        Tab::Torrents
    }
}

/// The text of the search bar and the place of the cursor in it, counted in
/// characters.
#[derive(Debug, Clone, PartialEq, Eq)]
pub struct SearchInput {
    value: Vec<char>,
    cursor_index: usize,
}

/// The search bar, as values.
pub struct SearchInputView {
    pub value: Seq<char>,
    pub cursor: nat,
}

/// Whether the character is white space.
pub open spec fn is_space(c: char) -> bool {
    let u = c as u32;
    ||| 0x09 <= u <= 0x0d
    ||| u == 0x20
    ||| u == 0x85
    ||| u == 0xa0
    ||| u == 0x1680
    ||| 0x2000 <= u <= 0x200a
    ||| u == 0x2028
    ||| u == 0x2029
    ||| u == 0x202f
    ||| u == 0x205f
    ||| u == 0x3000
}

/// The place of the last character before `end` that is no white space, or
/// -1 where there is none.
pub open spec fn last_non_space(value: Seq<char>, end: int) -> int
    decreases end,
{
    if end <= 0 {
        -1
    } else if !is_space(value[end - 1]) {
        end - 1
    } else {
        last_non_space(value, end - 1)
    }
}

/// The place of the last white space before `end`, or -1 where there is
/// none.
pub open spec fn last_space(value: Seq<char>, end: int) -> int
    decreases end,
{
    if end <= 0 {
        -1
    } else if is_space(value[end - 1]) {
        end - 1
    } else {
        last_space(value, end - 1)
    }
}

/// The smaller of two numbers.
pub open spec fn least(a: int, b: int) -> int {
    if a <= b {
        a
    } else {
        b
    }
}

impl SearchInputView {
    /// The cursor one to the left, and never past the end of the text.
    pub open spec fn moved_left(self) -> SearchInputView {
        SearchInputView {
            cursor: least(
                if self.cursor == 0 {
                    0
                } else {
                    self.cursor - 1
                },
                self.value.len() as int,
            ) as nat,
            ..self
        }
    }

    /// The cursor one to the right, and never past the end of the text.
    pub open spec fn moved_right(self) -> SearchInputView {
        SearchInputView { cursor: least(self.cursor as int + 1, self.value.len() as int) as nat, ..self }
    }

    /// The character put in at the cursor, and the cursor after it.
    pub open spec fn entered(self, c: char) -> SearchInputView {
        let at = least(self.cursor as int, self.value.len() as int);
        (SearchInputView { value: self.value.insert(at, c), ..self }).moved_right()
    }

    /// The character before the cursor taken out, and the cursor moved left.
    /// With the cursor at the start nothing changes.
    pub open spec fn deleted_char(self) -> SearchInputView {
        if self.cursor == 0 {
            self
        } else if self.cursor <= self.value.len() {
            (SearchInputView { value: self.value.remove(self.cursor - 1), ..self }).moved_left()
        } else {
            self.moved_left()
        }
    }

    /// The word before the cursor taken out. White space just before the
    /// cursor is passed over first; the word reaches back to the white space
    /// before it; where a space follows the gap, it goes too. With the
    /// cursor at the start, or past the end, nothing changes.
    pub open spec fn deleted_word(self) -> SearchInputView {
        let cursor = self.cursor as int;
        if cursor == 0 || cursor > self.value.len() {
            self
        } else {
            let word_end = if last_non_space(self.value, cursor) >= 0 {
                last_non_space(self.value, cursor) + 1
            } else {
                cursor
            };
            let word_start = last_space(self.value, word_end) + 1;
            let cut = self.value.take(word_start) + self.value.skip(word_end);
            let tidy = if word_start > 0 && word_start < cut.len() && cut[word_start] == ' ' {
                cut.remove(word_start)
            } else {
                cut
            };
            let back = cursor - least(word_end - word_start, tidy.len() as int);
            (SearchInputView { value: tidy, cursor: back as nat }).moved_left()
        }
    }
}

impl View for SearchInput {
    type V = SearchInputView;

    closed spec fn view(&self) -> SearchInputView {
        SearchInputView { value: self.value@, cursor: self.cursor_index as nat }
    }
}

/// Whether the character is white space.
pub fn is_whitespace(c: char) -> (r: bool)
    ensures
        r == is_space(c),
{
    let u = c as u32;
    (0x09 <= u && u <= 0x0d) || u == 0x20 || u == 0x85 || u == 0xa0 || u == 0x1680 || (0x2000 <= u
        && u <= 0x200a) || u == 0x2028 || u == 0x2029 || u == 0x202f || u == 0x205f || u == 0x3000
}

impl SearchInput {
    /// An empty search bar.
    pub fn new() -> (r: SearchInput)
        ensures
            r@ == (SearchInputView { value: Seq::empty(), cursor: 0 }),
    {
        SearchInput { value: Vec::new(), cursor_index: 0 }
    }

    /// The text.
    pub fn value(&self) -> (r: &Vec<char>)
        ensures
            r@ == self@.value,
    {
        &self.value
    }

    /// The place of the cursor, counted in characters.
    pub fn cursor_index(&self) -> (r: usize)
        ensures
            r == self@.cursor,
    {
        self.cursor_index
    }

    /// The place nearest to `new_cursor_pos` that is in the text or at its
    /// end.
    pub fn clamp_cursor(&self, new_cursor_pos: usize) -> (r: usize)
        ensures
            r == least(new_cursor_pos as int, self@.value.len() as int),
    {
        if new_cursor_pos <= self.value.len() {
            new_cursor_pos
        } else {
            self.value.len()
        }
    }

    /// Moves the cursor one to the left.
    pub fn move_cursor_left(&mut self)
        ensures
            final(self)@ == old(self)@.moved_left(),
    {
        let moved = if self.cursor_index == 0 {
            0
        } else {
            self.cursor_index - 1
        };
        self.cursor_index = self.clamp_cursor(moved);
    }

    /// Moves the cursor one to the right.
    pub fn move_cursor_right(&mut self)
        ensures
            final(self)@ == old(self)@.moved_right(),
    {
        if self.cursor_index < self.value.len() {
            self.cursor_index = self.cursor_index + 1;
        } else {
            self.cursor_index = self.value.len();
        }
    }

    /// Puts the cursor at the start.
    pub fn reset_cursor(&mut self)
        ensures
            final(self)@ == (SearchInputView { cursor: 0, ..old(self)@ }),
    {
        self.cursor_index = 0;
    }

    /// Puts a character in at the cursor.
    pub fn enter_char(&mut self, new_char: char)
        ensures
            final(self)@ == old(self)@.entered(new_char),
    {
        let at = self.clamp_cursor(self.cursor_index);
        self.value.insert(at, new_char);
        self.move_cursor_right();
    }

    /// Takes out the character before the cursor.
    pub fn delete_char(&mut self)
        ensures
            final(self)@ == old(self)@.deleted_char(),
    {
        if self.cursor_index != 0 {
            if self.cursor_index <= self.value.len() {
                self.value.remove(self.cursor_index - 1);
            }
            self.move_cursor_left();
        }
    }

    /// Takes out the word before the cursor.
    pub fn delete_word(&mut self)
        ensures
            final(self)@ == old(self)@.deleted_word(),
    {
        let cursor = self.cursor_index;
        if cursor == 0 || cursor > self.value.len() {
            return ;
        }
        let mut word_end: usize = cursor;
        while word_end > 0 && is_whitespace(self.value[word_end - 1])
            invariant
                word_end <= cursor <= self.value@.len(),
                last_non_space(self.value@, cursor as int) == last_non_space(
                    self.value@,
                    word_end as int,
                ),
            decreases word_end,
        {
            word_end = word_end - 1;
        }
        if word_end == 0 {
            word_end = cursor;
        }
        let mut word_start: usize = word_end;
        while word_start > 0 && !is_whitespace(self.value[word_start - 1])
            invariant
                word_start <= word_end <= self.value@.len(),
                last_space(self.value@, word_end as int) == last_space(
                    self.value@,
                    word_start as int,
                ),
            decreases word_start,
        {
            word_start = word_start - 1;
        }
        let ghost before = self.value@;
        let mut i: usize = word_end;
        while i > word_start
            invariant
                word_start <= i <= word_end <= before.len(),
                self.value@ == before.take(i as int) + before.skip(word_end as int),
            decreases i,
        {
            i = i - 1;
            self.value.remove(i);
            assert(self.value@ =~= before.take(i as int) + before.skip(word_end as int));
        }
        if word_start > 0 && word_start < self.value.len() && self.value[word_start] == ' ' {
            self.value.remove(word_start);
        }
        let removed = word_end - word_start;
        self.cursor_index = cursor - self.clamp_cursor(removed);
        self.move_cursor_left();
    }
}

/// A key of the keyboard, as far as the interface tells keys apart.
#[derive(Debug, Clone, Copy, PartialEq, Eq, Structural)]
pub enum KeyPress {
    Esc,
    Enter,
    Left,
    Right,
    Up,
    Down,
    Backspace,
    Char(char),
    Other,
}

/// What the program does after a key: go on, or leave.
#[derive(Debug, Clone, Copy, PartialEq, Eq, Structural)]
pub enum Outcome {
    Continue,
    Quit,
}

/// The state of the interface.
#[derive(Debug, Clone, PartialEq, Eq)]
pub struct App {
    editing: bool,
    search: SearchInput,
    selected_tab: Tab,
    item_index: usize,
}

/// The state of the interface, as values.
pub struct AppView {
    pub editing: bool,
    pub search: SearchInputView,
    pub selected_tab: Tab,
    pub item_index: nat,
}

impl View for App {
    type V = AppView;

    closed spec fn view(&self) -> AppView {
        AppView {
            editing: self.editing,
            search: self.search@,
            selected_tab: self.selected_tab,
            item_index: self.item_index as nat,
        }
    }
}

impl AppView {
    /// Whether the key is one that the interface has no answer to yet:
    /// `Esc` outside the search bar, on a tab other than the search.
    pub open spec fn unanswered(self, key: KeyPress) -> bool {
        !self.editing && key == KeyPress::Esc && self.selected_tab != Tab::Search
    }

    /// The state after a key. While the search bar is edited, keys move the
    /// cursor and change the text, `Esc` ends the editing, and `w` with the
    /// control key alone takes out a word. Otherwise keys move between the
    /// tabs, `/` on the search tab starts the editing, and the digits select
    /// a tab.
    pub open spec fn after(self, key: KeyPress, control: bool) -> AppView {
        if self.editing {
            match key {
                KeyPress::Esc => AppView { editing: false, ..self },
                KeyPress::Left => AppView { search: self.search.moved_left(), ..self },
                KeyPress::Right => AppView { search: self.search.moved_right(), ..self },
                KeyPress::Char(c) => if c == 'w' && control {
                    AppView { search: self.search.deleted_word(), ..self }
                } else {
                    AppView { search: self.search.entered(c), ..self }
                },
                KeyPress::Backspace => AppView { search: self.search.deleted_char(), ..self },
                _ => self,
            }
        } else {
            match key {
                KeyPress::Right => AppView { selected_tab: next_tab(self.selected_tab), ..self },
                KeyPress::Left => AppView { selected_tab: previous_tab(self.selected_tab), ..self },
                KeyPress::Esc => AppView { editing: false, ..self },
                KeyPress::Char(c) => if c == 'l' {
                    AppView { selected_tab: next_tab(self.selected_tab), ..self }
                } else if c == 'h' {
                    AppView { selected_tab: previous_tab(self.selected_tab), ..self }
                } else if c == '/' {
                    AppView { editing: self.selected_tab == Tab::Search, ..self }
                } else if c == '1' {
                    AppView { selected_tab: Tab::Torrents, ..self }
                } else if c == '2' {
                    AppView { selected_tab: Tab::Settings, ..self }
                } else if c == '3' {
                    AppView { selected_tab: Tab::Search, ..self }
                } else {
                    self
                },
                _ => self,
            }
        }
    }

    /// Whether the key makes the program leave: `q` outside the search bar.
    pub open spec fn quits(self, key: KeyPress) -> bool {
        !self.editing && key == KeyPress::Char('q')
    }

    /// The keys that the interface offers, as they are shown at the bottom:
    /// those of the selected tab, then the key to leave.
    pub open spec fn keybinds(self) -> Seq<Seq<char>> {
        match self.selected_tab {
            Tab::Torrents => seq![
                "Move Up [\u{2191}] "@,
                "Move Down [\u{2193}] "@,
                "Add [a]"@,
                "Filter [f]"@,
                "Columns [c]"@,
                "Quit [q]"@,
            ],
            Tab::Search => seq![
                if self.editing {
                    "Exit Search [esc]"@
                } else {
                    "Search [/]"@
                },
                "Add [a]"@,
                "Quit [q]"@,
            ],
            Tab::Settings => seq!["Edit [enter]"@, "Quit [q]"@],
        }
    }
}

/// The tab to the right, or the same tab where there is none.
pub open spec fn next_tab(tab: Tab) -> Tab {
    match tab {
        Tab::Torrents => Tab::Settings,
        Tab::Settings => Tab::Search,
        Tab::Search => Tab::Search,
    }
}

/// The tab to the left, or the same tab where there is none.
pub open spec fn previous_tab(tab: Tab) -> Tab {
    match tab {
        Tab::Torrents => Tab::Torrents,
        Tab::Settings => Tab::Torrents,
        Tab::Search => Tab::Settings,
    }
}

/// The texts of a list of labels.
pub open spec fn labels(list: Seq<&'static str>) -> Seq<Seq<char>> {
    Seq::new(list.len(), |i: int| list[i]@)
}

impl App {
    /// The interface as it starts: on the first tab, with an empty search
    /// bar that is not edited.
    pub fn new() -> (r: App)
        ensures
            r@ == (AppView {
                editing: false,
                search: SearchInputView { value: Seq::empty(), cursor: 0 },
                selected_tab: Tab::Torrents,
                item_index: 0,
            }),
    {
        App { editing: false, search: SearchInput::new(), selected_tab: Tab::Torrents, item_index: 0 }
    }

    /// Whether the search bar is edited.
    pub fn editing(&self) -> (r: bool)
        ensures
            r == self@.editing,
    {
        self.editing
    }

    /// The search bar.
    pub fn search(&self) -> (r: &SearchInput)
        ensures
            r@ == self@.search,
    {
        &self.search
    }

    /// The selected tab.
    pub fn selected_tab(&self) -> (r: Tab)
        ensures
            r == self@.selected_tab,
    {
        self.selected_tab
    }

    /// Selects the tab to the right.
    pub fn next_tab(&mut self)
        ensures
            final(self)@ == (AppView { selected_tab: next_tab(old(self)@.selected_tab), ..old(self)@ }),
    {
        self.selected_tab = self.selected_tab.next();
    }

    /// Selects the tab to the left.
    pub fn previous_tab(&mut self)
        ensures
            final(self)@ == (AppView {
                selected_tab: previous_tab(old(self)@.selected_tab),
                ..old(self)@
            }),
    {
        self.selected_tab = self.selected_tab.previous();
    }

    /// Moves up in the list. The list has no items yet, so nothing changes.
    pub fn move_up(&mut self)
        ensures
            final(self)@ == old(self)@,
    {
    }

    /// Moves down in the list. The list has no items yet, so nothing
    /// changes.
    pub fn move_down(&mut self)
        ensures
            final(self)@ == old(self)@,
    {
    }

    /// Takes a key, and says whether the program goes on.
    pub fn on_key(&mut self, key: KeyPress, control: bool) -> (r: Outcome)
        requires
            !old(self)@.unanswered(key),
        ensures
            r == if old(self)@.quits(key) {
                Outcome::Quit
            } else {
                Outcome::Continue
            },
            final(self)@ == old(self)@.after(key, control),
    {
        if self.editing {
            match key {
                KeyPress::Esc => {
                    self.editing = false;
                },
                KeyPress::Left => {
                    self.search.move_cursor_left();
                },
                KeyPress::Right => {
                    self.search.move_cursor_right();
                },
                KeyPress::Char(c) => {
                    if c == 'w' && control {
                        self.search.delete_word();
                    } else {
                        self.search.enter_char(c);
                    }
                },
                KeyPress::Backspace => {
                    self.search.delete_char();
                },
                _ => {},
            }
            Outcome::Continue
        } else {
            match key {
                KeyPress::Right => {
                    self.next_tab();
                },
                KeyPress::Left => {
                    self.previous_tab();
                },
                KeyPress::Up => {
                    self.move_up();
                },
                KeyPress::Down => {
                    self.move_down();
                },
                KeyPress::Esc => {
                    self.editing = false;
                },
                KeyPress::Char(c) => {
                    if c == 'l' {
                        self.next_tab();
                    } else if c == 'h' {
                        self.previous_tab();
                    } else if c == 'k' {
                        self.move_up();
                    } else if c == 'j' {
                        self.move_down();
                    } else if c == '/' {
                        match self.selected_tab {
                            Tab::Search => {
                                self.editing = true;
                            },
                            _ => {},
                        }
                    } else if c == '1' {
                        self.selected_tab = Tab::Torrents;
                    } else if c == '2' {
                        self.selected_tab = Tab::Settings;
                    } else if c == '3' {
                        self.selected_tab = Tab::Search;
                    } else if c == 'q' {
                        return Outcome::Quit;
                    }
                },
                _ => {},
            }
            Outcome::Continue
        }
    }

    /// The keys that the interface offers, as they are shown at the bottom.
    pub fn get_keybinds(&self) -> (r: Vec<&'static str>)
        ensures
            labels(r@) == self@.keybinds(),
    {
        let mut binds: Vec<&'static str> = Vec::new();
        match self.selected_tab {
            Tab::Torrents => {
                binds.push("Move Up [\u{2191}] ");
                binds.push("Move Down [\u{2193}] ");
                binds.push("Add [a]");
                binds.push("Filter [f]");
                binds.push("Columns [c]");
            },
            Tab::Search => {
                if self.editing {
                    binds.push("Exit Search [esc]");
                } else {
                    binds.push("Search [/]");
                }
                binds.push("Add [a]");
            },
            Tab::Settings => {
                binds.push("Edit [enter]");
            },
        }
        binds.push("Quit [q]");
        assert(labels(binds@) =~= self@.keybinds());
        binds
    }
}

impl Default for App {
    fn default() -> (r: App)
        ensures
            r@ == (AppView {
                editing: false,
                search: SearchInputView { value: Seq::empty(), cursor: 0 },
                selected_tab: Tab::Torrents,
                item_index: 0,
            }),
    {
        App::new()
    }
}

impl Default for SearchInput {
    fn default() -> (r: SearchInput)
        ensures
            r@ == (SearchInputView { value: Seq::empty(), cursor: 0 }),
    {
        SearchInput::new()
    }
}

} // verus!
