//! The interactive picker: how entries are searched and ordered, how the
//! picker reacts to loading results and keys, and what its screen shows.
//! Drawing on the terminal and reading keys is done by the program around
//! the library; it hands keys over as [`Key`] values.
use vstd::prelude::*;
use crate::text::{
    char_views, chars_of, contains, contains_chars, dec, lowercase, occurs_at, push_dec, push_str,
    pop_char, push_char, replace_all, replace_chars, split_words, string_from_chars, to_lowercase,
    words,
};

verus! {

// ---------------------------------------------------------------------------
// Entries
// ---------------------------------------------------------------------------

/// One stored command as the picker shows it.
#[derive(Clone, Debug, PartialEq, Eq)]
pub struct Entry {
    pub command: String,
    /// Nanoseconds since the Unix epoch; the newest entry has the largest.
    pub executed_at: i64,
    pub display_time: String,
}

/// A copy of `e`.
pub fn copy_entry(e: &Entry) -> (r: Entry)
    ensures
        r == *e,
{
    Entry {
        command: e.command.clone(),
        executed_at: e.executed_at,
        display_time: e.display_time.clone(),
    }
}

/// The entries a sequence of references points to.
pub open spec fn derefs(v: Seq<&Entry>) -> Seq<Entry> {
    v.map_values(|e: &Entry| *e)
}

// ---------------------------------------------------------------------------
// Matching
// ---------------------------------------------------------------------------

/// The words of a search text, each in lower case.
pub open spec fn query_words(q: Seq<char>) -> Seq<Seq<char>> {
    words(q).map_values(|w: Seq<char>| lowercase(w))
}

/// `text` contains every one of `ws`.
pub open spec fn has_all_words(text: Seq<char>, ws: Seq<Seq<char>>) -> bool {
    forall|i: int| 0 <= i < ws.len() ==> contains(text, #[trigger] ws[i])
}

/// An entry matches lower-case words when its command, in lower case,
/// contains each of them.
pub open spec fn matches_words(ws: Seq<Seq<char>>) -> spec_fn(Entry) -> bool {
    |e: Entry| has_all_words(lowercase(e.command@), ws)
}

/// The entries that match the search text `q`, in their order: each word
/// of `q` must occur in the command, letter case aside.
pub open spec fn matching_entries(es: Seq<Entry>, q: Seq<char>) -> Seq<Entry> {
    es.filter(matches_words(query_words(q)))
}

/// The words of `query`, in lower case.
pub fn lowercase_words(query: &str) -> (r: Vec<Vec<char>>)
    ensures
        char_views(r@) == query_words(query@),
{
    let ws = split_words(&chars_of(query));
    let mut r: Vec<Vec<char>> = Vec::new();
    for i in 0..ws.len()
        invariant
            char_views(ws@) == words(query@),
            char_views(r@) == query_words(query@).take(i as int),
    {
        let word = string_from_chars(&ws[i]);
        let lowered = to_lowercase(word.as_str());
        let lc = chars_of(lowered.as_str());
        let ghost before = char_views(r@);
        r.push(lc);
        proof {
            assert(char_views(ws@)[i as int] == ws@[i as int]@);
            assert(char_views(r@) =~= before.push(lc@));
            assert(query_words(query@).take(i + 1) =~= query_words(query@).take(i as int).push(
                lc@,
            ));
        }
    }
    proof {
        assert(query_words(query@).take(ws.len() as int) =~= query_words(query@));
    }
    r
}

/// Whether the lower-case command text `lowered_command` contains every one
/// of the lower-case words `ws`.
pub fn command_has_words(lowered_command: &Vec<char>, ws: &Vec<Vec<char>>) -> (r: bool)
    ensures
        r == has_all_words(lowered_command@, char_views(ws@)),
{
    for i in 0..ws.len()
        invariant
            forall|k: int| 0 <= k < i ==> contains(lowered_command@, #[trigger] char_views(ws@)[k]),
    {
        if !contains_chars(lowered_command, &ws[i]) {
            assert(char_views(ws@)[i as int] == ws@[i as int]@);
            return false;
        }
    }
    true
}

/// Whether `e` matches the lower-case words `ws`.
fn entry_matches(e: &Entry, ws: &Vec<Vec<char>>) -> (r: bool)
    ensures
        r == matches_words(char_views(ws@))(*e),
{
    let lowered = to_lowercase(e.command.as_str());
    command_has_words(&chars_of(lowered.as_str()), ws)
}

/// The entries that match `query`, in their order.
pub fn matching<'a>(entries: &'a [Entry], query: &str) -> (r: Vec<&'a Entry>)
    ensures
        derefs(r@) == matching_entries(entries@, query@),
{
    let ws = lowercase_words(query);
    let ghost pred = matches_words(query_words(query@));
    let mut r: Vec<&'a Entry> = Vec::new();
    for i in 0..entries.len()
        invariant
            char_views(ws@) == query_words(query@),
            pred == matches_words(query_words(query@)),
            derefs(r@) == entries@.take(i as int).filter(pred),
    {
        let e = &entries[i];
        proof {
            entries@.take(i as int).lemma_filter_push(*e, pred);
            assert(entries@.take(i + 1) == entries@.take(i as int).push(*e));
        }
        if entry_matches(e, &ws) {
            let ghost before = derefs(r@);
            r.push(e);
            assert(derefs(r@) =~= before.push(*e));
        }
    }
    assert(entries@.take(entries.len() as int) == entries@);
    r
}

/// `i` is the position of the newest entry of `es` that satisfies `m`: no
/// satisfying entry is newer, and none after it is as new.
pub open spec fn is_newest(es: Seq<Entry>, m: spec_fn(Entry) -> bool, i: int) -> bool {
    &&& 0 <= i < es.len()
    &&& m(es[i])
    &&& forall|j: int| 0 <= j < es.len() && m(#[trigger] es[j]) ==> es[j].executed_at <= es[i].executed_at
    &&& forall|j: int| i < j < es.len() && m(#[trigger] es[j]) ==> es[j].executed_at < es[i].executed_at
}

/// The newest entry that matches `query`; of equally new ones, the last.
pub fn newest_match<'a>(entries: &'a [Entry], query: &str) -> (r: Option<&'a Entry>)
    ensures
        r is None <==> forall|j: int|
            0 <= j < entries@.len() ==> !matches_words(query_words(query@))(#[trigger] entries@[j]),
        r matches Some(e) ==> exists|i: int|
            is_newest(entries@, matches_words(query_words(query@)), i) && *e == entries@[i],
{
    let ws = lowercase_words(query);
    let ghost m = matches_words(query_words(query@));
    let mut best: Option<usize> = None;
    for i in 0..entries.len()
        invariant
            char_views(ws@) == query_words(query@),
            m == matches_words(query_words(query@)),
            best is None ==> forall|j: int| 0 <= j < i ==> !m(#[trigger] entries@[j]),
            best matches Some(b) ==> {
                &&& b < i
                &&& m(entries@[b as int])
                &&& forall|j: int|
                    0 <= j < i && m(#[trigger] entries@[j]) ==> entries@[j].executed_at
                        <= entries@[b as int].executed_at
                &&& forall|j: int|
                    b < j < i && m(#[trigger] entries@[j]) ==> entries@[j].executed_at
                        < entries@[b as int].executed_at
            },
    {
        if entry_matches(&entries[i], &ws) {
            match best {
                None => {
                    best = Some(i);
                },
                Some(b) => {
                    if entries[i].executed_at >= entries[b].executed_at {
                        best = Some(i);
                    }
                },
            }
        }
    }
    match best {
        None => None,
        Some(b) => {
            assert(is_newest(entries@, m, b as int));
            Some(&entries[b])
        },
    }
}

// ---------------------------------------------------------------------------
// Ordering
// ---------------------------------------------------------------------------

/// Newest first: no entry is newer than one before it.
pub open spec fn newest_first(s: Seq<Entry>) -> bool {
    forall|i: int, j: int|
        0 <= i < j < s.len() ==> #[trigger] s[j].executed_at <= #[trigger] s[i].executed_at
}

/// The entries executed at time `t`.
pub open spec fn at_time(t: i64) -> spec_fn(Entry) -> bool {
    |e: Entry| e.executed_at == t
}

/// `r` is `s` ordered newest first, entries of equal time keeping their
/// relative order (a stable sort by descending time).
pub open spec fn stably_sorted(r: Seq<Entry>, s: Seq<Entry>) -> bool {
    &&& r.len() == s.len()
    &&& newest_first(r)
    &&& forall|t: i64| #[trigger] r.filter(at_time(t)) == s.filter(at_time(t))
}

proof fn lemma_filter_none(s: Seq<Entry>, p: spec_fn(Entry) -> bool)
    requires
        forall|k: int| 0 <= k < s.len() ==> !p(#[trigger] s[k]),
    ensures
        s.filter(p) == Seq::<Entry>::empty(),
{
    broadcast use Seq::lemma_filter_contains_rev;

    if s.filter(p).len() > 0 {
        let x = s.filter(p)[0];
        s.lemma_filter_pred(p, 0);
        assert(s.filter(p).contains(x));
        assert(s.contains(x));
    }
}

proof fn lemma_insert_newest_first(s: Seq<Entry>, p: int, e: Entry)
    requires
        0 <= p <= s.len(),
        newest_first(s),
        forall|k: int| 0 <= k < p ==> #[trigger] s[k].executed_at >= e.executed_at,
        forall|k: int| p <= k < s.len() ==> #[trigger] s[k].executed_at < e.executed_at,
    ensures
        newest_first(s.subrange(0, p) + seq![e] + s.subrange(p, s.len() as int)),
{
    let r = s.subrange(0, p) + seq![e] + s.subrange(p, s.len() as int);
    assert forall|a: int, b: int| 0 <= a < b < r.len() implies #[trigger] r[b].executed_at
        <= #[trigger] r[a].executed_at by {
        if b < p {
            assert(r[a] == s[a] && r[b] == s[b]);
        } else if b == p {
            assert(r[a] == s[a]);
        } else if a < p {
            assert(r[a] == s[a] && r[b] == s[b - 1]);
        } else if a == p {
            assert(r[b] == s[b - 1]);
        } else {
            assert(r[a] == s[a - 1] && r[b] == s[b - 1]);
        }
    }
}

proof fn lemma_insert_filter(s: Seq<Entry>, p: int, e: Entry, t: i64)
    requires
        0 <= p <= s.len(),
        forall|k: int| p <= k < s.len() ==> #[trigger] s[k].executed_at < e.executed_at,
    ensures
        (s.subrange(0, p) + seq![e] + s.subrange(p, s.len() as int)).filter(at_time(t)) == if t
            == e.executed_at {
            s.filter(at_time(t)).push(e)
        } else {
            s.filter(at_time(t))
        },
{
    let pt = at_time(t);
    let front = s.subrange(0, p);
    let back = s.subrange(p, s.len() as int);
    assert(s == front + back);
    Seq::filter_distributes_over_add(front, back, pt);
    Seq::filter_distributes_over_add(front + seq![e], back, pt);
    Seq::filter_distributes_over_add(front, seq![e], pt);
    Seq::<Entry>::empty().lemma_filter_push(e, pt);
    assert(seq![e] == Seq::<Entry>::empty().push(e));
    assert(Seq::<Entry>::empty().filter(pt) =~= Seq::<Entry>::empty()) by {
        reveal(Seq::filter);
    }
    if t == e.executed_at {
        assert forall|k: int| 0 <= k < back.len() implies !pt(#[trigger] back[k]) by {
            assert(back[k] == s[p + k]);
        }
        lemma_filter_none(back, pt);
        assert(front.filter(pt) + seq![e] == front.filter(pt).push(e));
    } else {
        assert(seq![e].filter(pt) =~= Seq::<Entry>::empty());
    }
}

/// `entries` ordered newest first; entries of equal time keep their order.
pub fn sorted(entries: &[Entry]) -> (r: Vec<Entry>)
    ensures
        stably_sorted(r@, entries@),
{
    let mut r: Vec<Entry> = Vec::new();
    for i in 0..entries.len()
        invariant
            r@.len() == i,
            newest_first(r@),
            forall|t: i64| #[trigger] r@.filter(at_time(t)) == entries@.take(i as int).filter(
                at_time(t),
            ),
    {
        let e = copy_entry(&entries[i]);
        let key = e.executed_at;
        let mut p: usize = 0;
        while p < r.len() && r[p].executed_at >= key
            invariant
                p <= r@.len(),
                forall|k: int| 0 <= k < p ==> r@[k].executed_at >= key,
            decreases r@.len() - p,
        {
            p += 1;
        }
        let ghost old_r = r@;
        proof {
            if p < old_r.len() {
                assert forall|k: int| p <= k < old_r.len() implies #[trigger] old_r[k].executed_at
                    < key by {
                    if k > p {
                        assert(old_r[k].executed_at <= old_r[p as int].executed_at);
                    }
                }
            }
        }
        r.insert(p, e);
        proof {
            assert(r@ =~= old_r.subrange(0, p as int) + seq![e] + old_r.subrange(
                p as int,
                old_r.len() as int,
            ));
            lemma_insert_newest_first(old_r, p as int, e);
            assert(entries@.take(i + 1) == entries@.take(i as int).push(entries@[i as int]));
            assert forall|t: i64| #[trigger] r@.filter(at_time(t)) == entries@.take(i + 1).filter(
                at_time(t),
            ) by {
                lemma_insert_filter(old_r, p as int, e, t);
                entries@.take(i as int).lemma_filter_push(e, at_time(t));
            }
        }
    }
    assert(entries@.take(entries.len() as int) == entries@);
    r
}

// ---------------------------------------------------------------------------
// Keys
// ---------------------------------------------------------------------------

/// No modifier key held.
pub const NO_MODIFIERS: u8 = 0;

/// The modifier bit of Shift.
pub const SHIFT: u8 = 1;

/// The modifier bit of Control.
pub const CONTROL: u8 = 2;

/// The keys the picker tells apart.
#[derive(Clone, Copy, Debug, PartialEq, Eq, Structural)]
pub enum KeyCode {
    Char(char),
    Esc,
    Enter,
    Up,
    Down,
    PageUp,
    PageDown,
    Home,
    End,
    Backspace,
    /// Any other key.
    Other,
}

/// A key press: the key and the modifier bits held with it.
#[derive(Clone, Copy, Debug, PartialEq, Eq, Structural)]
pub struct Key {
    pub modifiers: u8,
    pub code: KeyCode,
}

/// Control-C or Escape: the keys that close the picker.
pub open spec fn is_cancel_key(key: Key) -> bool {
    (key.modifiers == CONTROL && key.code == KeyCode::Char('c')) || key.code == KeyCode::Esc
}

// ---------------------------------------------------------------------------
// The picker
// ---------------------------------------------------------------------------

/// Where the history entries are.
pub enum LoadState {
    Loading,
    Ready(Vec<Entry>),
    Failed(String),
}

/// What the picker asks of the program after an event.
#[derive(Debug, PartialEq, Eq)]
pub enum Action {
    /// Keep going.
    Continue,
    /// Close the picker with this entry, or with none.
    Select(Option<Entry>),
    /// Close the picker without a choice.
    Cancel,
}

/// A message from the loader of the history entries.
pub enum Received {
    /// The loader's result.
    Loaded(Result<Vec<Entry>, String>),
    /// No message yet.
    Nothing,
    /// The loader is gone.
    Disconnected,
}

/// The state of the interactive picker.
pub struct Picker {
    pub state: LoadState,
    pub query: String,
    /// The position of the highlighted entry among the matches.
    pub selected: usize,
}

/// `x - y`, or 0 when that is negative.
pub open spec fn sat_sub(x: int, y: int) -> int {
    if x >= y {
        x - y
    } else {
        0
    }
}

/// The smaller of `x` and `y`.
pub open spec fn min(x: int, y: int) -> int {
    if x <= y {
        x
    } else {
        y
    }
}

impl Picker {
    /// The entries the picker currently offers: the matches of the query
    /// among loaded entries, none before loading ends.
    pub open spec fn offered(&self) -> Seq<Entry> {
        match self.state {
            LoadState::Ready(es) => matching_entries(es@, self.query@),
            _ => seq![],
        }
    }

    /// The highlighted position lies within the offered entries (or is the
    /// first position).
    pub open spec fn wf(&self) -> bool {
        self.selected == 0 || self.selected < self.offered().len()
    }

    /// A picker that is still loading, with `initial_query` as its query.
    pub fn new(initial_query: &str) -> (r: Self)
        ensures
            r.state is Loading,
            r.query@ == initial_query@,
            r.selected == 0,
            r.wf(),
    {
        Picker { state: LoadState::Loading, query: string_from_chars(&chars_of(initial_query)), selected: 0 }
    }

    /// Ends loading with the loader's result: the entries, newest first, or
    /// the error.  The highlight returns to the first position.
    pub fn finish_loading(&mut self, result: Result<Vec<Entry>, String>)
        ensures
            final(self).query == old(self).query,
            final(self).selected == 0,
            final(self).wf(),
            match result {
                Ok(es) => final(self).state matches LoadState::Ready(v) && stably_sorted(v@, es@),
                Err(e) => final(self).state == LoadState::Failed(e),
            },
    {
        self.state = match result {
            Ok(entries) => LoadState::Ready(sorted(entries.as_slice())),
            Err(error) => LoadState::Failed(error),
        };
        self.selected = 0;
    }

    /// The entries the picker currently offers.
    pub fn matches(&self) -> (r: Vec<&Entry>)
        ensures
            derefs(r@) == self.offered(),
    {
        match &self.state {
            LoadState::Ready(entries) => matching(entries.as_slice(), self.query.as_str()),
            _ => {
                let r: Vec<&Entry> = Vec::new();
                assert(derefs(r@) =~= Seq::<Entry>::empty());
                r
            },
        }
    }

    /// Reacts to a key press.  Control-C and Escape cancel.  After a failed
    /// load nothing else has an effect.  Otherwise Control-U clears the
    /// query, Backspace removes its last character and a character typed
    /// with no modifier or Shift is appended, each moving the highlight to
    /// the first position; once loaded, Enter selects the highlighted entry
    /// and Up, Down, Page Up, Page Down, Home and End move the highlight
    /// within the offered entries.
    pub fn handle_key(&mut self, key: Key) -> (action: Action)
        requires
            old(self).state is Ready && key.code == KeyCode::Down ==> old(self).selected < usize::MAX,
            old(self).state is Ready && key.code == KeyCode::PageDown ==> old(self).selected + 10
                <= usize::MAX,
        ensures
            final(self).state == old(self).state,
            old(self).wf() ==> final(self).wf(),
            ({
                let n = old(self).offered().len() as int;
                let ready = old(self).state is Ready;
                let sel = old(self).selected as int;
                let kept = final(self).query == old(self).query && final(self).selected
                    == old(self).selected;
                if is_cancel_key(key) {
                    action == Action::Cancel && kept
                } else if old(self).state is Failed {
                    action == Action::Continue && kept
                } else if key.modifiers == CONTROL && key.code == KeyCode::Char('u') {
                    action == Action::Continue && final(self).query@ == Seq::<char>::empty()
                        && final(self).selected == 0
                } else if ready && key.code == KeyCode::Enter {
                    kept && action == Action::Select(
                        if sel < n {
                            Some(old(self).offered()[sel])
                        } else {
                            None
                        },
                    )
                } else if ready && (key.code == KeyCode::Up || key.code == KeyCode::Down
                    || key.code == KeyCode::PageUp || key.code == KeyCode::PageDown || key.code
                    == KeyCode::Home || key.code == KeyCode::End) {
                    &&& action == Action::Continue
                    &&& final(self).query == old(self).query
                    &&& final(self).selected == match key.code {
                        KeyCode::Up => sat_sub(sel, 1),
                        KeyCode::Down => min(sel + 1, sat_sub(n, 1)),
                        KeyCode::PageUp => sat_sub(sel, 10),
                        KeyCode::PageDown => min(sel + 10, sat_sub(n, 1)),
                        KeyCode::Home => 0,
                        _ => sat_sub(n, 1),
                    }
                } else if key.code == KeyCode::Backspace {
                    &&& action == Action::Continue
                    &&& final(self).query@ == if old(self).query@.len() == 0 {
                        old(self).query@
                    } else {
                        old(self).query@.drop_last()
                    }
                    &&& final(self).selected == 0
                } else if (key.modifiers == NO_MODIFIERS || key.modifiers == SHIFT)
                    && key.code is Char {
                    &&& action == Action::Continue
                    &&& final(self).query@ == old(self).query@.push(key.code->Char_0)
                    &&& final(self).selected == 0
                } else {
                    action == Action::Continue && kept
                }
            }),
    {
        let cancel = match key.code {
            KeyCode::Esc => true,
            KeyCode::Char(c) => key.modifiers == CONTROL && c == 'c',
            _ => false,
        };
        if cancel {
            return Action::Cancel;
        }
        let ready = match &self.state {
            LoadState::Failed(_) => {
                return Action::Continue;
            },
            LoadState::Ready(_) => true,
            LoadState::Loading => false,
        };
        let found = self.matches();
        let match_count = found.len();
        let last = if match_count > 0 {
            match_count - 1
        } else {
            0
        };
        if key.modifiers == CONTROL && key.code == KeyCode::Char('u') {
            self.query = String::new();
            self.selected = 0;
            return Action::Continue;
        }
        if ready {
            match key.code {
                KeyCode::Enter => {
                    let chosen = if self.selected < match_count {
                        Some(copy_entry(found[self.selected]))
                    } else {
                        None
                    };
                    return Action::Select(chosen);
                },
                KeyCode::Up => {
                    self.selected = if self.selected >= 1 {
                        self.selected - 1
                    } else {
                        0
                    };
                    return Action::Continue;
                },
                KeyCode::Down => {
                    let next = self.selected + 1;
                    self.selected = if next <= last {
                        next
                    } else {
                        last
                    };
                    return Action::Continue;
                },
                KeyCode::PageUp => {
                    self.selected = if self.selected >= 10 {
                        self.selected - 10
                    } else {
                        0
                    };
                    return Action::Continue;
                },
                KeyCode::PageDown => {
                    let next = self.selected + 10;
                    self.selected = if next <= last {
                        next
                    } else {
                        last
                    };
                    return Action::Continue;
                },
                KeyCode::Home => {
                    self.selected = 0;
                    return Action::Continue;
                },
                KeyCode::End => {
                    self.selected = last;
                    return Action::Continue;
                },
                _ => {},
            }
        }
        match key.code {
            KeyCode::Backspace => {
                pop_char(&mut self.query);
                self.selected = 0;
            },
            KeyCode::Char(c) => {
                if key.modifiers == NO_MODIFIERS || key.modifiers == SHIFT {
                    push_char(&mut self.query, c);
                    self.selected = 0;
                }
            },
            _ => {},
        }
        Action::Continue
    }

    /// Reacts to what the loader sent: an empty history closes the picker
    /// without a choice; a result ends loading; a loader that is gone while
    /// loading is a failure.
    pub fn receive(&mut self, message: Received) -> (action: Action)
        ensures
            old(self).wf() ==> final(self).wf(),
            final(self).query == old(self).query,
            match message {
                Received::Loaded(Ok(es)) => if es@.len() == 0 {
                    action == Action::Cancel && *final(self) == *old(self)
                } else {
                    &&& action == Action::Continue
                    &&& final(self).state matches LoadState::Ready(v) && stably_sorted(v@, es@)
                    &&& final(self).selected == 0
                },
                Received::Loaded(Err(e)) => {
                    &&& action == Action::Continue
                    &&& final(self).state == LoadState::Failed(e)
                    &&& final(self).selected == 0
                },
                Received::Nothing => action == Action::Continue && *final(self) == *old(self),
                Received::Disconnected => if old(self).state is Loading {
                    &&& action == Action::Continue
                    &&& final(self).state matches LoadState::Failed(e) && e@
                        == "history loader stopped"@
                    &&& final(self).selected == 0
                } else {
                    action == Action::Continue && *final(self) == *old(self)
                },
            },
    {
        match message {
            Received::Loaded(result) => {
                let empty = match &result {
                    Ok(entries) => entries.len() == 0,
                    Err(_) => false,
                };
                if empty {
                    return Action::Cancel;
                }
                self.finish_loading(result);
                Action::Continue
            },
            Received::Nothing => Action::Continue,
            Received::Disconnected => {
                let loading = match &self.state {
                    LoadState::Loading => true,
                    _ => false,
                };
                if loading {
                    let message = string_from_chars(&chars_of("history loader stopped"));
                    self.finish_loading(Err(message));
                }
                Action::Continue
            },
        }
    }
}

// ---------------------------------------------------------------------------
// The screen
// ---------------------------------------------------------------------------

/// How a message on the screen is coloured.
#[derive(Clone, Copy, Debug, PartialEq, Eq, Structural)]
pub enum Tone {
    Dim,
    Error,
}

/// One offered entry as a line of the list.
pub struct Item {
    /// The time column, when the list is wide enough for it.
    pub time: Option<String>,
    /// The command on one line.
    pub command: String,
}

/// What the area below the search line shows.
pub enum Body {
    /// A single centred message.
    Message { text: String, tone: Tone },
    /// The offered entries.
    Items(Vec<Item>),
}

/// Which key help the last line shows.
#[derive(Clone, Copy, Debug, PartialEq, Eq, Structural)]
pub enum Help {
    /// Only how to cancel.
    Failed,
    /// How to clear the query and to cancel.
    Loading,
    /// The short help, with the position.
    Compact,
    /// The full help, with the position.
    Full,
}

/// Everything the picker's screen shows, apart from colours and layout.
pub struct Screen {
    /// The status at the right of the search line.
    pub status: String,
    pub body: Body,
    /// The highlighted position and the number of offered entries.
    pub position: String,
    pub help: Help,
}

/// The frame of the loading spinner for tick `tick`.
pub open spec fn spinner_char(tick: nat) -> char {
    if tick % 4 == 0 {
        '|'
    } else if tick % 4 == 1 {
        '/'
    } else if tick % 4 == 2 {
        '-'
    } else {
        '\\'
    }
}

/// The list line of an entry: its command with line breaks turned into
/// spaces, and its time followed by two spaces when `with_time`.
pub open spec fn item_of(e: Entry, with_time: bool) -> (Option<Seq<char>>, Seq<char>) {
    (
        if with_time {
            Some(e.display_time@ + seq![' ', ' '])
        } else {
            None
        },
        replace_all(e.command@, seq!['\n'], seq![' ']),
    )
}

/// The texts of a list line.
pub open spec fn item_view(it: Item) -> (Option<Seq<char>>, Seq<char>) {
    (
        match it.time {
            Some(t) => Some(t@),
            None => None,
        },
        it.command@,
    )
}

/// The texts of list lines.
pub open spec fn item_views(items: Seq<Item>) -> Seq<(Option<Seq<char>>, Seq<char>)> {
    items.map_values(|it: Item| item_view(it))
}

/// The widest screen that gets the compact key help.
pub const COMPACT_BELOW: u16 = 64;

/// The narrowest list that shows the time column.
pub const TIME_COLUMN_FROM: u16 = 54;

fn spinner(tick: usize) -> (c: char)
    ensures
        c == spinner_char(tick as nat),
{
    let k = tick % 4;
    if k == 0 {
        '|'
    } else if k == 1 {
        '/'
    } else if k == 2 {
        '-'
    } else {
        '\\'
    }
}

fn make_item(e: &Entry, with_time: bool) -> (r: Item)
    ensures
        item_view(r) == item_of(*e, with_time),
{
    let time = if with_time {
        let mut cs = chars_of(e.display_time.as_str());
        cs.push(' ');
        cs.push(' ');
        Some(string_from_chars(&cs))
    } else {
        None
    };
    let mut newline: Vec<char> = Vec::new();
    newline.push('\n');
    let mut space: Vec<char> = Vec::new();
    space.push(' ');
    let command = string_from_chars(&replace_chars(&chars_of(e.command.as_str()), &newline, &space));
    Item { time, command }
}

impl Picker {
    /// `r` is what the screen shows for an area `area_width` columns wide
    /// whose list is `list_width` columns wide, at spinner tick `tick`: the
    /// status, the message or the offered entries, the position and the
    /// kind of key help.
    pub open spec fn shows(&self, r: Screen, area_width: u16, list_width: u16, tick: usize) -> bool {
        let n = self.offered().len();
        &&& r.status@ == match self.state {
            LoadState::Loading => "loading"@,
            LoadState::Failed(_) => "error"@,
            LoadState::Ready(_) => dec(n) + " matches"@,
        }
        &&& match self.state {
            LoadState::Loading => r.body matches Body::Message { text, tone } && tone
                == Tone::Dim && text@ == seq![spinner_char(tick as nat)]
                + " Loading history..."@,
            LoadState::Failed(e) => r.body matches Body::Message { text, tone } && tone
                == Tone::Error && text@ == "Failed to load history: "@ + e@,
            LoadState::Ready(_) => if n == 0 {
                r.body matches Body::Message { text, tone } && tone == Tone::Dim && text@
                    == "No matching commands"@
            } else {
                r.body matches Body::Items(items) && item_views(items@) == self.offered().map_values(
                    |e: Entry| item_of(e, list_width >= TIME_COLUMN_FROM),
                )
            },
        }
        &&& r.position@ == if n == 0 {
            "0/0"@
        } else {
            dec((self.selected + 1) as nat) + seq!['/'] + dec(n)
        }
        &&& r.help == if self.state is Failed {
            Help::Failed
        } else if self.state is Loading {
            Help::Loading
        } else if area_width < COMPACT_BELOW {
            Help::Compact
        } else {
            Help::Full
        }
    }

    /// What the screen shows for an area `area_width` columns wide whose
    /// list is `list_width` columns wide, at spinner tick `tick`.
    pub fn screen(&self, area_width: u16, list_width: u16, tick: usize) -> (r: Screen)
        requires
            self.wf(),
        ensures
            self.shows(r, area_width, list_width, tick),
    {
        let found = self.matches();
        let n = found.len();
        let mut status: Vec<char> = Vec::new();
        let body = match &self.state {
            LoadState::Loading => {
                push_str(&mut status, "loading");
                let mut text: Vec<char> = Vec::new();
                text.push(spinner(tick));
                push_str(&mut text, " Loading history...");
                Body::Message { text: string_from_chars(&text), tone: Tone::Dim }
            },
            LoadState::Failed(error) => {
                push_str(&mut status, "error");
                let mut text: Vec<char> = Vec::new();
                push_str(&mut text, "Failed to load history: ");
                push_str(&mut text, error.as_str());
                Body::Message { text: string_from_chars(&text), tone: Tone::Error }
            },
            LoadState::Ready(_) => {
                push_dec(&mut status, n as u64);
                push_str(&mut status, " matches");
                if n == 0 {
                    let text = string_from_chars(&chars_of("No matching commands"));
                    Body::Message { text, tone: Tone::Dim }
                } else {
                    let with_time = list_width >= TIME_COLUMN_FROM;
                    let mut items: Vec<Item> = Vec::new();
                    for i in 0..n
                        invariant
                            n == found@.len(),
                            item_views(items@) == derefs(found@).take(i as int).map_values(
                                |e: Entry| item_of(e, with_time),
                            ),
                    {
                        let it = make_item(found[i], with_time);
                        let ghost before = item_views(items@);
                        let ghost view = item_view(it);
                        items.push(it);
                        proof {
                            assert(item_views(items@) =~= before.push(view));
                            assert(derefs(found@).take(i + 1) =~= derefs(found@).take(
                                i as int,
                            ).push(*found@[i as int]));
                            assert(derefs(found@).take(i + 1).map_values(
                                |e: Entry| item_of(e, with_time),
                            ) =~= derefs(found@).take(i as int).map_values(
                                |e: Entry| item_of(e, with_time),
                            ).push(item_of(*found@[i as int], with_time)));
                        }
                    }
                    assert(derefs(found@).take(n as int) =~= derefs(found@));
                    Body::Items(items)
                }
            },
        };
        let mut position: Vec<char> = Vec::new();
        if n == 0 {
            push_str(&mut position, "0/0");
        } else {
            let shown = (self.selected + 1) as u64;
            assert(shown as nat == (self.selected + 1) as nat);
            assert(n as u64 as nat == n as nat);
            push_dec(&mut position, shown);
            position.push('/');
            push_dec(&mut position, n as u64);
            assert(position@ =~= dec((self.selected + 1) as nat) + seq!['/'] + dec(n as nat));
        }
        let help = match &self.state {
            LoadState::Failed(_) => Help::Failed,
            LoadState::Loading => Help::Loading,
            LoadState::Ready(_) => if area_width < COMPACT_BELOW {
                Help::Compact
            } else {
                Help::Full
            },
        };
        Screen {
            status: string_from_chars(&status),
            body,
            position: string_from_chars(&position),
            help,
        }
    }
}

/// How a piece of the key-help line is shown.
#[derive(Clone, Copy, Debug, PartialEq, Eq, Structural)]
pub enum HelpStyle {
    /// A key name.
    Key,
    /// What the key does.
    Plain,
    /// The position.
    Dim,
}

/// A piece of the key-help line.
pub struct HelpPart {
    pub text: String,
    pub style: HelpStyle,
}

/// The pieces of the key-help line of kind `help`, with `position` shown
/// at the end of the compact and the full help.
pub open spec fn help_parts(help: Help, position: Seq<char>) -> Seq<(Seq<char>, HelpStyle)> {
    match help {
        Help::Failed => seq![("esc"@, HelpStyle::Key), (" cancel"@, HelpStyle::Plain)],
        Help::Loading => seq![
            ("ctrl-u"@, HelpStyle::Key),
            (" clear  "@, HelpStyle::Plain),
            ("esc"@, HelpStyle::Key),
            (" cancel"@, HelpStyle::Plain),
        ],
        Help::Compact => seq![
            ("\u{2191}\u{2193}"@, HelpStyle::Key),
            (" move  "@, HelpStyle::Plain),
            ("enter"@, HelpStyle::Key),
            (" select  "@, HelpStyle::Plain),
            ("esc"@, HelpStyle::Key),
            (" cancel  "@, HelpStyle::Plain),
            (position, HelpStyle::Dim),
        ],
        Help::Full => seq![
            ("\u{2191}\u{2193}/pgup/pgdn"@, HelpStyle::Key),
            ("move  "@, HelpStyle::Plain),
            ("enter"@, HelpStyle::Key),
            ("select  "@, HelpStyle::Plain),
            ("esc"@, HelpStyle::Key),
            ("cancel  "@, HelpStyle::Plain),
            ("ctrl-u"@, HelpStyle::Key),
            ("clear  "@, HelpStyle::Plain),
            (position, HelpStyle::Dim),
        ],
    }
}

/// The texts and styles of help pieces.
pub open spec fn help_views(parts: Seq<HelpPart>) -> Seq<(Seq<char>, HelpStyle)> {
    parts.map_values(|p: HelpPart| (p.text@, p.style))
}

fn push_part(parts: &mut Vec<HelpPart>, text: &str, style: HelpStyle)
    ensures
        help_views(final(parts)@) == help_views(old(parts)@).push((text@, style)),
{
    let part = HelpPart { text: string_from_chars(&chars_of(text)), style };
    parts.push(part);
    assert(help_views(parts@) =~= help_views(old(parts)@).push((text@, style)));
}

/// The key-help line of kind `help`, with `position` shown at the end of
/// the compact and the full help.
pub fn help_line(help: Help, position: &str) -> (r: Vec<HelpPart>)
    ensures
        help_views(r@) == help_parts(help, position@),
{
    let mut parts: Vec<HelpPart> = Vec::new();
    match help {
        Help::Failed => {
            push_part(&mut parts, "esc", HelpStyle::Key);
            push_part(&mut parts, " cancel", HelpStyle::Plain);
        },
        Help::Loading => {
            push_part(&mut parts, "ctrl-u", HelpStyle::Key);
            push_part(&mut parts, " clear  ", HelpStyle::Plain);
            push_part(&mut parts, "esc", HelpStyle::Key);
            push_part(&mut parts, " cancel", HelpStyle::Plain);
        },
        Help::Compact => {
            push_part(&mut parts, "\u{2191}\u{2193}", HelpStyle::Key);
            push_part(&mut parts, " move  ", HelpStyle::Plain);
            push_part(&mut parts, "enter", HelpStyle::Key);
            push_part(&mut parts, " select  ", HelpStyle::Plain);
            push_part(&mut parts, "esc", HelpStyle::Key);
            push_part(&mut parts, " cancel  ", HelpStyle::Plain);
            push_part(&mut parts, position, HelpStyle::Dim);
        },
        Help::Full => {
            push_part(&mut parts, "\u{2191}\u{2193}/pgup/pgdn", HelpStyle::Key);
            push_part(&mut parts, "move  ", HelpStyle::Plain);
            push_part(&mut parts, "enter", HelpStyle::Key);
            push_part(&mut parts, "select  ", HelpStyle::Plain);
            push_part(&mut parts, "esc", HelpStyle::Key);
            push_part(&mut parts, "cancel  ", HelpStyle::Plain);
            push_part(&mut parts, "ctrl-u", HelpStyle::Key);
            push_part(&mut parts, "clear  ", HelpStyle::Plain);
            push_part(&mut parts, position, HelpStyle::Dim);
        },
    }
    assert(help_views(parts@) =~= help_parts(help, position@));
    parts
}

/// What precedes the query on the search line.
pub const PROMPT: &'static str = "> ";

/// A rectangle of the terminal: column, row, width and height.
pub type Area = (u16, u16, u16, u16);

/// The rows of the search line.
pub const SEARCH_ROWS: u16 = 1;

/// The fewest rows of the list.
pub const LIST_MIN_ROWS: u16 = 1;

/// The rows of the key-help line.
pub const HELP_ROWS: u16 = 1;

/// What ratatui's `Layout::vertical([Length(top), Min(middle),
/// Length(bottom)])` makes of the area at column `x`, row `y`, `width`
/// columns wide and `height` rows high, when the area has room for all
/// three rows.
pub uninterp spec fn picker_rows(
    x: u16,
    y: u16,
    width: u16,
    height: u16,
    top: u16,
    middle: u16,
    bottom: u16,
) -> (Area, Area, Area);

/// The width ratatui's `Rect::new` keeps for an area at column `x`: the
/// given width, cut so that the area ends within `u16`.
pub open spec fn clipped_width(x: u16, width: u16) -> u16 {
    if width > u16::MAX - x {
        (u16::MAX - x) as u16
    } else {
        width
    }
}

/// The height ratatui's `Rect::new` keeps for an area at row `y`.
pub open spec fn clipped_height(y: u16, height: u16) -> u16 {
    if height > u16::MAX - y {
        (u16::MAX - y) as u16
    } else {
        height
    }
}

/// Lays an area out in three rows with ratatui's `Layout::vertical(..)
/// .areas`: a row of `top` rows, one of at least `middle` rows, one of
/// `bottom` rows.  Claims that, the layout being vertical without margin,
/// each row starts at column `x` and spans the area's width as `Rect::new`
/// clips it; and that when the clipped area has room for all three rows the
/// result is the named layout.  When it has not, ratatui's solver has
/// several equally good answers and may pick either, so nothing more is
/// claimed then.
#[verifier::external_body]
fn split_rows(x: u16, y: u16, width: u16, height: u16, top: u16, middle: u16, bottom: u16) -> (r: (
    Area,
    Area,
    Area,
))
    ensures
        clipped_height(y, height) >= top + middle + bottom ==> r == picker_rows(
            x,
            y,
            width,
            height,
            top,
            middle,
            bottom,
        ),
        r.0.0 == x && r.1.0 == x && r.2.0 == x,
        r.0.2 == clipped_width(x, width),
        r.1.2 == clipped_width(x, width),
        r.2.2 == clipped_width(x, width),
{
    let area = ratatui::layout::Rect::new(x, y, width, height);
    let [first, second, third] = ratatui::layout::Layout::vertical(
        [
            ratatui::layout::Constraint::Length(top),
            ratatui::layout::Constraint::Min(middle),
            ratatui::layout::Constraint::Length(bottom),
        ],
    ).areas(area);
    (
        (first.x, first.y, first.width, first.height),
        (second.x, second.y, second.width, second.height),
        (third.x, third.y, third.width, third.height),
    )
}

/// The rows of the picker in the area at column `x`, row `y`, `width`
/// columns wide and `height` rows high: the search line, the list, the
/// key-help line.
pub fn picker_layout(x: u16, y: u16, width: u16, height: u16) -> (r: (Area, Area, Area))
    ensures
        clipped_height(y, height) >= SEARCH_ROWS + LIST_MIN_ROWS + HELP_ROWS ==> r
            == picker_rows(x, y, width, height, SEARCH_ROWS, LIST_MIN_ROWS, HELP_ROWS),
        r.0.0 == x && r.1.0 == x && r.2.0 == x,
        r.0.2 == clipped_width(x, width),
        r.1.2 == clipped_width(x, width),
        r.2.2 == clipped_width(x, width),
{
    split_rows(x, y, width, height, SEARCH_ROWS, LIST_MIN_ROWS, HELP_ROWS)
}

impl Picker {
    /// What the screen shows in the area at column `x`, row `y`, `width`
    /// columns wide and `height` rows high, the list taking the middle row
    /// of [`picker_layout`], which is as wide as the (clipped) area: the time
    /// column shows when that width is at least `TIME_COLUMN_FROM`.
    pub fn screen_in(&self, x: u16, y: u16, width: u16, height: u16, tick: usize) -> (r: Screen)
        requires
            self.wf(),
        ensures
            self.shows(r, width, clipped_width(x, width), tick),
    {
        let rows = picker_layout(x, y, width, height);
        self.screen(width, rows.1.2, tick)
    }
}

/// The clamp of `x` into `lo..=hi`.
pub open spec fn clamp(x: int, lo: int, hi: int) -> int {
    if x < lo {
        lo
    } else if x > hi {
        hi
    } else {
        x
    }
}

/// The height of the picker for a terminal `terminal_height` rows high:
/// two fifths of it, at least 5 and at most 14 rows.
pub fn inline_height(terminal_height: u16) -> (r: u16)
    requires
        terminal_height * 2 <= u16::MAX,
    ensures
        r == clamp(terminal_height * 2 / 5, 5, 14),
{
    let h = terminal_height * 2 / 5;
    if h < 5 {
        5
    } else if h > 14 {
        14
    } else {
        h
    }
}


// ---------------------------------------------------------------------------
// Laws
// ---------------------------------------------------------------------------

proof fn lemma_same_groups_equal(r1: Seq<Entry>, r2: Seq<Entry>)
    requires
        r1.len() == r2.len(),
        newest_first(r1),
        newest_first(r2),
        forall|t: i64| #[trigger] r1.filter(at_time(t)) == r2.filter(at_time(t)),
    ensures
        r1 == r2,
    decreases r1.len(),
{
    broadcast use Seq::lemma_filter_contains_rev, Seq::lemma_filter_prepend;

    if r1.len() > 0 {
        let a = r1[0];
        let b = r2[0];
        let t1 = r1.drop_first();
        let t2 = r2.drop_first();
        assert(r1 == seq![a] + t1);
        assert(r2 == seq![b] + t2);
        r1.lemma_filter_contains(at_time(a.executed_at), 0);
        assert(r2.filter(at_time(a.executed_at)).contains(a));
        let k = choose|k: int| 0 <= k < r2.len() && r2[k] == a;
        assert(r2[k].executed_at <= r2[0].executed_at) by {
            if k > 0 {
                assert(r2[k].executed_at <= r2[0].executed_at);
            }
        }
        r2.lemma_filter_contains(at_time(b.executed_at), 0);
        assert(r1.filter(at_time(b.executed_at)).contains(b));
        let m = choose|m: int| 0 <= m < r1.len() && r1[m] == b;
        assert(r1[m].executed_at <= r1[0].executed_at) by {
            if m > 0 {
                assert(r1[m].executed_at <= r1[0].executed_at);
            }
        }
        let ta = at_time(a.executed_at);
        assert(r1.filter(ta) == seq![a] + t1.filter(ta));
        assert(r2.filter(ta) == seq![b] + t2.filter(ta));
        assert(r1.filter(ta)[0] == a);
        assert(r2.filter(ta)[0] == b);
        assert(a == b);
        assert forall|t: i64| #[trigger] t1.filter(at_time(t)) == t2.filter(at_time(t)) by {
            let pt = at_time(t);
            let head = if pt(a) {
                seq![a]
            } else {
                Seq::<Entry>::empty()
            };
            assert(r1.filter(pt) == head + t1.filter(pt));
            assert(r2.filter(pt) == head + t2.filter(pt));
            assert(t1.filter(pt) =~= r1.filter(pt).skip(head.len() as int));
            assert(t2.filter(pt) =~= r2.filter(pt).skip(head.len() as int));
        }
        assert forall|i: int, j: int| 0 <= i < j < t1.len() implies #[trigger] t1[j].executed_at
            <= #[trigger] t1[i].executed_at by {
            assert(t1[i] == r1[i + 1] && t1[j] == r1[j + 1]);
        }
        assert forall|i: int, j: int| 0 <= i < j < t2.len() implies #[trigger] t2[j].executed_at
            <= #[trigger] t2[i].executed_at by {
            assert(t2[i] == r2[i + 1] && t2[j] == r2[j + 1]);
        }
        lemma_same_groups_equal(t1, t2);
    }
}

/// The newest-first stable order of a list is unique: any two orderings
/// that keep equally old entries in their relative order are the same.
pub proof fn lemma_stable_order_unique(r1: Seq<Entry>, r2: Seq<Entry>, s: Seq<Entry>)
    requires
        stably_sorted(r1, s),
        stably_sorted(r2, s),
    ensures
        r1 == r2,
{
    lemma_same_groups_equal(r1, r2);
}

/// Ordering a list that is already newest first leaves it unchanged.
pub proof fn lemma_sorting_sorted_is_identity(s: Seq<Entry>, r: Seq<Entry>)
    requires
        newest_first(s),
        stably_sorted(r, s),
    ensures
        r == s,
{
    lemma_same_groups_equal(r, s);
}

proof fn lemma_filter_all(s: Seq<Entry>, p: spec_fn(Entry) -> bool)
    requires
        forall|k: int| 0 <= k < s.len() ==> p(#[trigger] s[k]),
    ensures
        s.filter(p) == s,
    decreases s.len(),
{
    reveal(Seq::filter);
    if s.len() > 0 {
        assert forall|k: int| 0 <= k < s.drop_last().len() implies p(#[trigger] s.drop_last()[k]) by {
            assert(s.drop_last()[k] == s[k]);
        }
        lemma_filter_all(s.drop_last(), p);
        assert(s.drop_last().push(s.last()) =~= s);
    }
}

/// A search text made of white space only (the empty one too) matches
/// every entry.
pub proof fn lemma_blank_query_matches_all(es: Seq<Entry>, q: Seq<char>)
    requires
        crate::text::is_blank(q),
    ensures
        matching_entries(es, q) == es,
{
    crate::text::lemma_words_blank(q);
    assert(query_words(q).len() == 0);
    lemma_filter_all(es, matches_words(query_words(q)));
}


proof fn lemma_has_all_concat(t: Seq<char>, w1: Seq<Seq<char>>, w2: Seq<Seq<char>>)
    ensures
        has_all_words(t, w1 + w2) == (has_all_words(t, w1) && has_all_words(t, w2)),
{
    let w = w1 + w2;
    if has_all_words(t, w1) && has_all_words(t, w2) {
        assert forall|i: int| 0 <= i < w.len() implies contains(t, #[trigger] w[i]) by {
            if i < w1.len() {
                assert(w[i] == w1[i]);
            } else {
                assert(w[i] == w2[i - w1.len()]);
            }
        }
    }
    if has_all_words(t, w) {
        assert forall|i: int| 0 <= i < w1.len() implies contains(t, #[trigger] w1[i]) by {
            assert(w[i] == w1[i]);
        }
        assert forall|i: int| 0 <= i < w2.len() implies contains(t, #[trigger] w2[i]) by {
            assert(w[i + w1.len()] == w2[i]);
        }
    }
}

proof fn lemma_query_words_concat(q1: Seq<char>, c: char, q2: Seq<char>)
    requires
        crate::text::is_ws(c),
    ensures
        query_words(q1.push(c) + q2) == query_words(q1) + query_words(q2),
{
    crate::text::lemma_words_concat(q1, c, q2);
    assert(query_words(q1.push(c) + q2) =~= query_words(q1) + query_words(q2));
}

proof fn lemma_filter_both(s: Seq<Entry>, p: spec_fn(Entry) -> bool, q: spec_fn(Entry) -> bool, pq: spec_fn(Entry) -> bool)
    requires
        forall|e: Entry| #[trigger] pq(e) == (p(e) && q(e)),
    ensures
        s.filter(pq) == s.filter(p).filter(q),
    decreases s.len(),
{
    reveal(Seq::filter);
    if s.len() > 0 {
        let init = s.drop_last();
        let x = s.last();
        lemma_filter_both(init, p, q, pq);
        assert(init.push(x) =~= s);
        init.lemma_filter_push(x, pq);
        init.lemma_filter_push(x, p);
        init.filter(p).lemma_filter_push(x, q);
    }
}

/// Each further word only narrows a search: the matches of `q1`, white
/// space and `q2` are the matches of `q1` that also match the words of
/// `q2`, in the same order (a subsequence of the matches of `q1`).
pub proof fn lemma_more_words_narrow(es: Seq<Entry>, q1: Seq<char>, c: char, q2: Seq<char>)
    requires
        crate::text::is_ws(c),
    ensures
        matching_entries(es, q1.push(c) + q2) == matching_entries(es, q1).filter(
            matches_words(query_words(q2)),
        ),
{
    let w1 = query_words(q1);
    let w2 = query_words(q2);
    lemma_query_words_concat(q1, c, q2);
    assert forall|e: Entry| #[trigger] matches_words(w1 + w2)(e) == (matches_words(w1)(e)
        && matches_words(w2)(e)) by {
        lemma_has_all_concat(lowercase(e.command@), w1, w2);
    }
    lemma_filter_both(es, matches_words(w1), matches_words(w2), matches_words(w1 + w2));
}

/// The order of the words of a search does not matter: `q1` then `q2`
/// matches the same entries as `q2` then `q1`.
pub proof fn lemma_word_order_irrelevant(es: Seq<Entry>, q1: Seq<char>, c: char, q2: Seq<char>)
    requires
        crate::text::is_ws(c),
    ensures
        matching_entries(es, q1.push(c) + q2) == matching_entries(es, q2.push(c) + q1),
{
    let w1 = query_words(q1);
    let w2 = query_words(q2);
    lemma_query_words_concat(q1, c, q2);
    lemma_query_words_concat(q2, c, q1);
    assert forall|e: Entry| #[trigger] matches_words(w1 + w2)(e) == matches_words(w2 + w1)(e) by {
        lemma_has_all_concat(lowercase(e.command@), w1, w2);
        lemma_has_all_concat(lowercase(e.command@), w2, w1);
    }
    assert(matches_words(w1 + w2) =~= matches_words(w2 + w1));
}

proof fn lemma_first_satisfying(s: Seq<Entry>, p: spec_fn(Entry) -> bool, k: int) -> (m: int)
    requires
        0 <= k < s.len(),
        p(s[k]),
    ensures
        0 <= m <= k,
        p(s[m]),
        forall|j: int| 0 <= j < m ==> !p(#[trigger] s[j]),
    decreases k,
{
    if exists|j: int| 0 <= j < k && p(#[trigger] s[j]) {
        let j = choose|j: int| 0 <= j < k && p(#[trigger] s[j]);
        lemma_first_satisfying(s, p, j)
    } else {
        k
    }
}

proof fn lemma_filter_first(s: Seq<Entry>, p: spec_fn(Entry) -> bool, k: int)
    requires
        0 <= k < s.len(),
        p(s[k]),
        forall|j: int| 0 <= j < k ==> !p(#[trigger] s[j]),
    ensures
        s.filter(p).len() > 0,
        s.filter(p)[0] == s[k],
{
    broadcast use Seq::lemma_filter_prepend;

    let front = s.take(k);
    let back = s.skip(k);
    assert(s == front + back);
    assert forall|j: int| 0 <= j < front.len() implies !p(#[trigger] front[j]) by {
        assert(front[j] == s[j]);
    }
    lemma_filter_none(front, p);
    Seq::filter_distributes_over_add(front, back, p);
    assert(back == seq![s[k]] + back.drop_first());
    assert(back.filter(p) == seq![s[k]] + back.drop_first().filter(p));
    assert(s.filter(p) =~= back.filter(p));
}

/// An entry of the ordered list `r` is an entry of `s`.
proof fn lemma_sorted_member(r: Seq<Entry>, s: Seq<Entry>, k: int) -> (j: int)
    requires
        stably_sorted(r, s),
        0 <= k < r.len(),
    ensures
        0 <= j < s.len(),
        s[j] == r[k],
{
    broadcast use Seq::lemma_filter_contains_rev;

    let t = at_time(r[k].executed_at);
    r.lemma_filter_contains(t, k);
    assert(r.filter(t) == s.filter(t));
    assert(s.filter(t).contains(r[k]));
    assert(s.contains(r[k]));
    choose|j: int| 0 <= j < s.len() && s[j] == r[k]
}

/// When no two entries share a time, the entry chosen without a terminal
/// (the newest match) is the first entry the picker offers for the same
/// query on the entries ordered newest first; and the picker offers nothing
/// exactly when nothing matches.
pub proof fn lemma_newest_match_is_first_offered(es: Seq<Entry>, r: Seq<Entry>, q: Seq<char>)
    requires
        forall|i: int, j: int|
            0 <= i < j < es.len() ==> #[trigger] es[i].executed_at != #[trigger] es[j].executed_at,
        stably_sorted(r, es),
    ensures
        matching_entries(r, q).len() == 0 <==> forall|j: int|
            0 <= j < es.len() ==> !matches_words(query_words(q))(#[trigger] es[j]),
        forall|i: int|
            is_newest(es, matches_words(query_words(q)), i) ==> matching_entries(r, q).len() > 0
                && matching_entries(r, q)[0] == es[i],
{
    broadcast use Seq::lemma_filter_contains_rev;

    let m = matches_words(query_words(q));
    if matching_entries(r, q).len() > 0 {
        r.lemma_filter_pred(m, 0);
        assert(r.filter(m).contains(r.filter(m)[0]));
        let k = choose|k: int| 0 <= k < r.len() && r[k] == r.filter(m)[0];
        let j = lemma_sorted_member(r, es, k);
        assert(m(es[j]));
    }
    assert forall|j: int| 0 <= j < es.len() && m(#[trigger] es[j]) implies matching_entries(
        r,
        q,
    ).len() > 0 by {
        let t = at_time(es[j].executed_at);
        es.lemma_filter_contains(t, j);
        assert(r.filter(t).contains(es[j]));
        assert(r.contains(es[j]));
        let k = choose|k: int| 0 <= k < r.len() && r[k] == es[j];
        let f = lemma_first_satisfying(r, m, k);
        lemma_filter_first(r, m, f);
    }
    assert forall|i: int| is_newest(es, m, i) implies matching_entries(r, q).len() > 0
        && matching_entries(r, q)[0] == es[i] by {
        let e = es[i];
        let t = at_time(e.executed_at);
        es.lemma_filter_contains(t, i);
        assert(r.filter(t).contains(e));
        assert(r.contains(e));
        let k = choose|k: int| 0 <= k < r.len() && r[k] == e;
        let f = lemma_first_satisfying(r, m, k);
        lemma_filter_first(r, m, f);
        let j = lemma_sorted_member(r, es, f);
        assert(es[j].executed_at <= e.executed_at);
        if f < k {
            assert(r[k].executed_at <= r[f].executed_at);
        }
        if j != i {
            if j < i {
                assert(es[j].executed_at != es[i].executed_at);
            } else {
                assert(es[i].executed_at != es[j].executed_at);
            }
        }
    }
}


/// A search word matches wherever it occurs in the lower-case command, not
/// only where a word of the command starts: `text` holds all of `ws` as
/// soon as each of them occurs in `text` at some position.
pub proof fn lemma_words_match_anywhere(text: Seq<char>, ws: Seq<Seq<char>>)
    ensures
        (forall|i: int|
            #![trigger ws[i]]
            0 <= i < ws.len() ==> exists|j: int| #[trigger] occurs_at(text, ws[i], j))
            ==> has_all_words(text, ws),
{
}

/// Conversely, each word of `ws` occurs at some position of a text that
/// holds all of them.
pub proof fn lemma_held_word_occurs(text: Seq<char>, ws: Seq<Seq<char>>, i: int)
    requires
        has_all_words(text, ws),
        0 <= i < ws.len(),
    ensures
        exists|j: int| #[trigger] occurs_at(text, ws[i], j),
{
    assert(contains(text, ws[i]));
}

/// An entry is offered for a query when every lower-case word of the query
/// occurs, at any position, in the entry's lower-case command.
pub proof fn lemma_offered_entries(es: Seq<Entry>, q: Seq<char>, k: int)
    requires
        0 <= k < es.len(),
    ensures
        (forall|i: int|
            #![trigger query_words(q)[i]]
            0 <= i < query_words(q).len() ==> exists|j: int|
                #[trigger] occurs_at(lowercase(es[k].command@), query_words(q)[i], j))
            ==> matching_entries(es, q).contains(es[k]),
{
    let ws = query_words(q);
    let text = lowercase(es[k].command@);
    lemma_words_match_anywhere(text, ws);
    if has_all_words(text, ws) {
        es.lemma_filter_contains(matches_words(ws), k);
    }
}

/// Each lower-case word of the query occurs at some position of the
/// lower-case command of every offered entry.
pub proof fn lemma_offered_entry_has_words(es: Seq<Entry>, q: Seq<char>, m: int, i: int)
    requires
        0 <= m < matching_entries(es, q).len(),
        0 <= i < query_words(q).len(),
    ensures
        exists|j: int|
            #[trigger] occurs_at(
                lowercase(matching_entries(es, q)[m].command@),
                query_words(q)[i],
                j,
            ),
{
    let ws = query_words(q);
    es.lemma_filter_pred(matches_words(ws), m);
    lemma_held_word_occurs(lowercase(matching_entries(es, q)[m].command@), ws, i);
}

/// When entries are offered, the position shows the highlighted entry's
/// number, counting from 1, then `/`, then how many entries are offered;
/// with none offered it shows `0/0`.
pub proof fn lemma_position_counts_from_one(
    p: Picker,
    r: Screen,
    area_width: u16,
    list_width: u16,
    tick: usize,
)
    requires
        p.shows(r, area_width, list_width, tick),
    ensures
        p.offered().len() > 0 ==> ({
            let k = dec((p.selected + 1) as nat).len();
            &&& r.position@[k as int] == '/'
            &&& r.position@.take(k as int) == dec((p.selected + 1) as nat)
            &&& crate::text::numeral_value(r.position@.take(k as int)) == p.selected + 1
            &&& r.position@.skip((k + 1) as int) == dec(p.offered().len())
            &&& crate::text::numeral_value(r.position@.skip((k + 1) as int)) == p.offered().len()
        }),
        p.offered().len() == 0 ==> r.position@ == "0/0"@,
{
    let n = p.offered().len();
    if n > 0 {
        let a = dec((p.selected + 1) as nat);
        let b = dec(n);
        crate::text::lemma_dec_is_numeral((p.selected + 1) as nat);
        crate::text::lemma_dec_is_numeral(n);
        assert(r.position@ == a + seq!['/'] + b);
        assert(r.position@.take(a.len() as int) =~= a);
        assert(r.position@.skip((a.len() + 1) as int) =~= b);
        assert(r.position@[a.len() as int] == '/');
    }
}

} // verus!
