//! What the keys do in the terminal edition: moving through lists, switching
//! tabs, paging through the tutorial, and the small dialogs (Trash, confirm,
//! groups, suggestions).
//!
//! Each function takes the state it needs as plain values and the key, and
//! answers with the new state or with what the caller has to do next
//! (restore an entry, ask for confirmation, save ...). Drawing the screen
//! and touching files is left to the caller.

use vstd::prelude::*;
use crate::text_input::{Key, KeyCode};
use crate::tui_forms;
use crate::message::{owned, str_eq};

verus! {

/// Neither Control nor Alt is held.
pub open spec fn plain_key(key: Key) -> bool {
    !key.ctrl && !key.alt
}

/// Up arrow, or `k` without Control or Alt.
pub open spec fn up_key(key: Key) -> bool {
    key.code == KeyCode::Up || (plain_key(key) && key.code == KeyCode::Char('k'))
}

/// Down arrow, or `j` without Control or Alt.
pub open spec fn down_key(key: Key) -> bool {
    key.code == KeyCode::Down || (plain_key(key) && key.code == KeyCode::Char('j'))
}

/// A key that moves through a list.
pub open spec fn nav_key(key: Key) -> bool {
    up_key(key) || down_key(key) || key.code == KeyCode::PageUp || key.code == KeyCode::PageDown
        || key.code == KeyCode::Home || key.code == KeyCode::End
}

/// Up arrow, or `k` without Control or Alt.
pub fn is_up(key: &Key) -> (r: bool)
    ensures
        r == up_key(*key),
{
    key.code == KeyCode::Up || (!key.ctrl && !key.alt && key.code == KeyCode::Char('k'))
}

/// Down arrow, or `j` without Control or Alt.
pub fn is_down(key: &Key) -> (r: bool)
    ensures
        r == down_key(*key),
{
    key.code == KeyCode::Down || (!key.ctrl && !key.alt && key.code == KeyCode::Char('j'))
}

/// A key that moves through a list: the arrows, `j` `k`, Page Up/Down, Home
/// and End.
pub fn is_nav(key: &Key) -> (r: bool)
    ensures
        r == nav_key(*key),
{
    is_up(key) || is_down(key) || key.code == KeyCode::PageUp || key.code == KeyCode::PageDown
        || key.code == KeyCode::Home || key.code == KeyCode::End
}

/// `a - b`, or 0 where that is negative.
pub open spec fn minus_or_zero(a: int, b: int) -> int {
    if a >= b {
        a - b
    } else {
        0
    }
}

/// `a + b`, at most `last`.
pub open spec fn plus_at_most(a: int, b: int, last: int) -> int {
    if a + b <= last {
        a + b
    } else {
        last
    }
}

/// Where a selection in a list of `len` rows goes on a key: one row with
/// the arrows, ten with Page Up/Down, to either end with Home and End, never
/// past the ends. An empty list keeps row 0.
pub open spec fn moved_index(index: int, len: int, key: Key) -> int {
    if len == 0 {
        0
    } else if key.code == KeyCode::PageUp {
        minus_or_zero(index, 10)
    } else if key.code == KeyCode::PageDown {
        plus_at_most(index, 10, len - 1)
    } else if key.code == KeyCode::Home {
        0
    } else if key.code == KeyCode::End {
        len - 1
    } else if up_key(key) {
        minus_or_zero(index, 1)
    } else if down_key(key) {
        plus_at_most(index, 1, len - 1)
    } else {
        index
    }
}

fn add_at_most(a: usize, b: usize, last: usize) -> (r: usize)
    ensures
        r == plus_at_most(a as int, b as int, last as int),
{
    if a >= last || last - a <= b {
        last
    } else {
        a + b
    }
}

fn sub_or_zero(a: usize, b: usize) -> (r: usize)
    ensures
        r == minus_or_zero(a as int, b as int),
{
    if a >= b {
        a - b
    } else {
        0
    }
}

/// Where a selection in a list of `len` rows goes on a key.
pub fn move_index(index: usize, len: usize, key: &Key) -> (r: usize)
    ensures
        r == moved_index(index as int, len as int, *key),
        len > 0 && index < len ==> r < len,
{
    if len == 0 {
        return 0;
    }
    if key.code == KeyCode::PageUp {
        sub_or_zero(index, 10)
    } else if key.code == KeyCode::PageDown {
        add_at_most(index, 10, len - 1)
    } else if key.code == KeyCode::Home {
        0
    } else if key.code == KeyCode::End {
        len - 1
    } else if is_up(key) {
        sub_or_zero(index, 1)
    } else if is_down(key) {
        add_at_most(index, 1, len - 1)
    } else {
        index
    }
}

/// A selection kept inside a list of `len` rows: at most the last row, 0
/// for an empty list.
pub open spec fn clamped(selected: int, len: int) -> int {
    if len == 0 {
        0
    } else if selected <= len - 1 {
        selected
    } else {
        len - 1
    }
}

/// A selection kept inside a list of `len` rows.
pub fn clamp_selection(selected: usize, len: usize) -> (r: usize)
    ensures
        r == clamped(selected as int, len as int),
{
    if len == 0 {
        0
    } else if selected <= len - 1 {
        selected
    } else {
        len - 1
    }
}

/// The next of `len` choices, after the last comes the first.
pub open spec fn next_of(index: int, len: int) -> int {
    (index + 1) % len
}

/// The previous of `len` choices, before the first comes the last.
pub open spec fn previous_of(index: int, len: int) -> int {
    (index + len - 1) % len
}

/// Steps through `len` choices in a ring, forward or back.
pub fn cycle(index: usize, len: usize, forward: bool) -> (r: usize)
    requires
        len > 0,
    ensures
        r == (if forward {
            next_of(index as int, len as int)
        } else {
            previous_of(index as int, len as int)
        }),
        r < len,
{
    let j = index % len;
    proof {
        vstd::arithmetic::div_mod::lemma_mod_bound(index as int, len as int);
        vstd::arithmetic::div_mod::lemma_add_mod_noop(index as int, 1, len as int);
        vstd::arithmetic::div_mod::lemma_add_mod_noop(index as int, len - 1, len as int);
        vstd::arithmetic::div_mod::lemma_mod_self_0(len as int);
    }
    if forward {
        if j + 1 == len {
            proof {
                assert((j + 1) % (len as int) == 0);
                if len == 1 {
                    assert(1int % 1 == 0) by (nonlinear_arith);
                } else {
                    vstd::arithmetic::div_mod::lemma_small_mod(1, len as nat);
                }
            }
            0
        } else {
            proof {
                vstd::arithmetic::div_mod::lemma_small_mod((j + 1) as nat, len as nat);
                if len == 1 {
                } else {
                    vstd::arithmetic::div_mod::lemma_small_mod(1, len as nat);
                }
            }
            j + 1
        }
    } else {
        proof {
            vstd::arithmetic::div_mod::lemma_small_mod((len - 1) as nat, len as nat);
        }
        if j == 0 {
            proof {
                vstd::arithmetic::div_mod::lemma_small_mod(0, len as nat);
            }
            len - 1
        } else {
            proof {
                vstd::arithmetic::div_mod::lemma_mod_add_multiples_vanish((j - 1) as int, len as int);
                vstd::arithmetic::div_mod::lemma_small_mod((j - 1) as nat, len as nat);
            }
            j - 1
        }
    }
}

/// Stepping forward and then back through a ring of choices comes back to
/// where it started, and so does stepping back and then forward.
pub proof fn lemma_cycle_round_trip(index: int, len: int)
    requires
        len > 0,
        0 <= index < len,
    ensures
        previous_of(next_of(index, len), len) == index,
        next_of(previous_of(index, len), len) == index,
{
    vstd::arithmetic::div_mod::lemma_small_mod(index as nat, len as nat);
    if index + 1 < len {
        vstd::arithmetic::div_mod::lemma_small_mod((index + 1) as nat, len as nat);
        vstd::arithmetic::div_mod::lemma_mod_add_multiples_vanish(index, len);
    } else {
        vstd::arithmetic::div_mod::lemma_mod_self_0(len);
        vstd::arithmetic::div_mod::lemma_small_mod((len - 1) as nat, len as nat);
    }
    if index == 0 {
        vstd::arithmetic::div_mod::lemma_small_mod((len - 1) as nat, len as nat);
        vstd::arithmetic::div_mod::lemma_mod_self_0(len);
    } else {
        vstd::arithmetic::div_mod::lemma_mod_add_multiples_vanish(index - 1, len);
        vstd::arithmetic::div_mod::lemma_small_mod((index - 1) as nat, len as nat);
        vstd::arithmetic::div_mod::lemma_small_mod(index as nat, len as nat);
    }
}


/// The three tabs of the terminal edition.
#[derive(Clone, Copy, PartialEq, Eq, Structural)]
pub enum Tab {
    Aliases,
    Automations,
    Settings,
}

/// The tab that Tab switches to.
pub open spec fn tab_after(tab: Tab) -> Tab {
    match tab {
        Tab::Aliases => Tab::Automations,
        Tab::Automations => Tab::Settings,
        Tab::Settings => Tab::Aliases,
    }
}

/// The tab that Shift+Tab switches to.
pub open spec fn tab_before(tab: Tab) -> Tab {
    match tab {
        Tab::Aliases => Tab::Settings,
        Tab::Automations => Tab::Aliases,
        Tab::Settings => Tab::Automations,
    }
}

/// The tab that Tab switches to.
pub fn next_tab(tab: Tab) -> (r: Tab)
    ensures
        r == tab_after(tab),
{
    match tab {
        Tab::Aliases => Tab::Automations,
        Tab::Automations => Tab::Settings,
        Tab::Settings => Tab::Aliases,
    }
}

/// The tab that Shift+Tab switches to.
pub fn previous_tab(tab: Tab) -> (r: Tab)
    ensures
        r == tab_before(tab),
{
    match tab {
        Tab::Aliases => Tab::Settings,
        Tab::Automations => Tab::Aliases,
        Tab::Settings => Tab::Automations,
    }
}

/// Shift+Tab undoes Tab and Tab undoes Shift+Tab; three presses of Tab
/// come back to the same tab.
pub proof fn lemma_tab_round_trip(tab: Tab)
    ensures
        tab_before(tab_after(tab)) == tab,
        tab_after(tab_before(tab)) == tab,
        tab_after(tab_after(tab_after(tab))) == tab,
{
}

/// What a key means before the tab itself sees it.
pub enum GlobalKey {
    /// `q`: quit (or ask first while an automation runs).
    Quit,
    /// `?`: open the tutorial at this topic.
    Help(usize),
    /// Switch to this tab.
    Show(Tab),
    /// The tab handles the key.
    PassOn,
}

/// What a key means before the tab itself sees it: `q` quits, `?` opens the
/// tutorial at the topic of the tab, `1` `2` `3`, Tab and Shift+Tab switch
/// tabs.
pub open spec fn global_action(tab: Tab, key: Key) -> GlobalKey {
    if key.code == KeyCode::Char('q') && plain_key(key) {
        GlobalKey::Quit
    } else if key.code == KeyCode::Char('?') {
        GlobalKey::Help(if tab == Tab::Automations { 1 } else { 0 })
    } else if key.code == KeyCode::Char('1') {
        GlobalKey::Show(Tab::Aliases)
    } else if key.code == KeyCode::Char('2') {
        GlobalKey::Show(Tab::Automations)
    } else if key.code == KeyCode::Char('3') {
        GlobalKey::Show(Tab::Settings)
    } else if key.code == KeyCode::Tab {
        GlobalKey::Show(tab_after(tab))
    } else if key.code == KeyCode::BackTab {
        GlobalKey::Show(tab_before(tab))
    } else {
        GlobalKey::PassOn
    }
}

/// What a key means before the tab itself sees it.
pub fn global_key(tab: Tab, key: &Key) -> (r: GlobalKey)
    ensures
        r == global_action(tab, *key),
{
    if key.code == KeyCode::Char('q') && !key.ctrl && !key.alt {
        GlobalKey::Quit
    } else if key.code == KeyCode::Char('?') {
        GlobalKey::Help(if tab == Tab::Automations { 1 } else { 0 })
    } else if key.code == KeyCode::Char('1') {
        GlobalKey::Show(Tab::Aliases)
    } else if key.code == KeyCode::Char('2') {
        GlobalKey::Show(Tab::Automations)
    } else if key.code == KeyCode::Char('3') {
        GlobalKey::Show(Tab::Settings)
    } else if key.code == KeyCode::Tab {
        GlobalKey::Show(next_tab(tab))
    } else if key.code == KeyCode::BackTab {
        GlobalKey::Show(previous_tab(tab))
    } else {
        GlobalKey::PassOn
    }
}

/// Where the tutorial goes on a key.
pub enum HelpKey {
    /// Close the tutorial.
    Close,
    /// Show this topic and page.
    Show(usize, usize),
    /// Open the sponsor link and stay on the page.
    OpenSupport,
}

/// The tutorial's pages: `counts[t]` pages in topic `t`, at least one topic
/// and at least one page in each.
pub open spec fn help_shape(counts: Seq<usize>) -> bool {
    counts.len() > 0 && forall|t: int| 0 <= t < counts.len() ==> #[trigger] counts[t] > 0
}

/// A digit key `1` to `9`.
pub open spec fn digit_topic(key: Key) -> Option<int> {
    match key.code {
        KeyCode::Char(c) => if '1' <= c && c <= '9' {
            Some((c as int) - ('1' as int))
        } else {
            None
        },
        _ => None,
    }
}

/// Where the tutorial goes on a key, on page `step` of topic `topic`:
/// forward and back page by page (across topics), topic by topic, straight
/// to topic `n` with the digit `n`; Esc, `q` and `?` close it; `s` on the
/// support topic opens the sponsor link.
pub open spec fn help_action(topic: int, step: int, counts: Seq<usize>, support: bool, key: Key)
    -> HelpKey {
    let n = counts.len() as int;
    let code = key.code;
    if code == KeyCode::Esc || code == KeyCode::Char('q') || code == KeyCode::Char('?') {
        HelpKey::Close
    } else if code == KeyCode::Right || code == KeyCode::Char('l') || code == KeyCode::Enter
        || code == KeyCode::Char(' ') {
        if step + 1 < counts[topic] {
            HelpKey::Show(topic as usize, (step + 1) as usize)
        } else if topic + 1 < n {
            HelpKey::Show((topic + 1) as usize, 0)
        } else {
            HelpKey::Close
        }
    } else if code == KeyCode::Left || code == KeyCode::Char('h') {
        if step > 0 {
            HelpKey::Show(topic as usize, (step - 1) as usize)
        } else if topic > 0 {
            HelpKey::Show((topic - 1) as usize, (counts[topic - 1] - 1) as usize)
        } else {
            HelpKey::Show(topic as usize, step as usize)
        }
    } else if code == KeyCode::Tab || code == KeyCode::Down || code == KeyCode::Char('j') {
        HelpKey::Show(next_of(topic, n) as usize, 0)
    } else if code == KeyCode::BackTab || code == KeyCode::Up || code == KeyCode::Char('k') {
        HelpKey::Show(previous_of(topic, n) as usize, 0)
    } else if digit_topic(key) is Some {
        HelpKey::Show(clamped(digit_topic(key)->0, n) as usize, 0)
    } else if code == KeyCode::Char('s') && support {
        HelpKey::OpenSupport
    } else {
        HelpKey::Show(topic as usize, step as usize)
    }
}

/// Where the tutorial goes on a key; `support` tells whether the topic
/// shown is the support topic.
pub fn help_key(topic: usize, step: usize, counts: &Vec<usize>, support: bool, key: &Key) -> (r:
    HelpKey)
    requires
        help_shape(counts@),
        topic < counts.len(),
    ensures
        r == help_action(topic as int, step as int, counts@, support, *key),
{
    let n = counts.len();
    let code = key.code;
    if code == KeyCode::Esc || code == KeyCode::Char('q') || code == KeyCode::Char('?') {
        HelpKey::Close
    } else if code == KeyCode::Right || code == KeyCode::Char('l') || code == KeyCode::Enter
        || code == KeyCode::Char(' ') {
        if step < counts[topic] && step + 1 < counts[topic] {
            HelpKey::Show(topic, step + 1)
        } else if topic + 1 < n {
            HelpKey::Show(topic + 1, 0)
        } else {
            HelpKey::Close
        }
    } else if code == KeyCode::Left || code == KeyCode::Char('h') {
        if step > 0 {
            HelpKey::Show(topic, step - 1)
        } else if topic > 0 {
            assert(counts@[topic - 1] > 0);
            HelpKey::Show(topic - 1, counts[topic - 1] - 1)
        } else {
            HelpKey::Show(topic, step)
        }
    } else if code == KeyCode::Tab || code == KeyCode::Down || code == KeyCode::Char('j') {
        HelpKey::Show(cycle(topic, n, true), 0)
    } else if code == KeyCode::BackTab || code == KeyCode::Up || code == KeyCode::Char('k') {
        HelpKey::Show(cycle(topic, n, false), 0)
    } else {
        match code {
            KeyCode::Char(c) => {
                if '1' <= c && c <= '9' {
                    let index = ((c as u32) - ('1' as u32)) as usize;
                    return HelpKey::Show(clamp_selection(index, n), 0);
                }
            },
            _ => {},
        }
        if code == KeyCode::Char('s') && support {
            HelpKey::OpenSupport
        } else {
            HelpKey::Show(topic, step)
        }
    }
}

/// Paging forward through the tutorial and then back returns to the same
/// page, wherever forward did not close it.
pub proof fn lemma_help_forward_back(topic: int, step: int, counts: Seq<usize>, support: bool)
    requires
        help_shape(counts),
        counts.len() <= usize::MAX,
        0 <= topic < counts.len(),
        0 <= step < counts[topic],
        help_action(topic, step, counts, support, forward_key()) is Show,
    ensures
        ({
            let (t, s) = match help_action(topic, step, counts, support, forward_key()) {
                HelpKey::Show(t, s) => (t as int, s as int),
                _ => (0, 0),
            };
            help_action(t, s, counts, support, back_key()) == HelpKey::Show(
                topic as usize,
                step as usize,
            )
        }),
{
    assert(counts[topic] > 0);
    if step + 1 < counts[topic] {
    } else {
        assert(counts[topic + 1] > 0);
    }
}

/// The Right arrow.
pub open spec fn forward_key() -> Key {
    Key { code: KeyCode::Right, ctrl: false, alt: false, shift: false }
}

/// The Left arrow.
pub open spec fn back_key() -> Key {
    Key { code: KeyCode::Left, ctrl: false, alt: false, shift: false }
}


/// What a key does in a Trash list.
pub enum TrashKey {
    /// Close the list.
    Close,
    /// Restore the entry at this row; the selection then follows
    /// `trash_selection` over the shorter list.
    Restore(usize),
    /// Ask whether to delete the entry at this row for good.
    AskDelete(usize),
    /// Ask whether to empty the Trash.
    AskEmpty,
    /// Select this row.
    Select(usize),
}

/// The row a Trash list selects after a key: the selection kept inside the
/// list, then moved by the key.
pub open spec fn trash_selected(selected: int, len: int, key: Key) -> int {
    moved_index(clamped(selected, len), len, key)
}

/// The row a Trash list selects after a key.
pub fn trash_selection(selected: usize, len: usize, key: &Key) -> (r: usize)
    ensures
        r == trash_selected(selected as int, len as int, *key),
{
    let kept = clamp_selection(selected, len);
    move_index(kept, len, key)
}

/// What a key does in a Trash list of `len` entries: Esc and `q` close it,
/// Enter and `r` restore, `d`, Delete and Backspace ask before deleting the
/// selected entry, `E` asks before emptying a Trash that holds something;
/// other keys move the selection.
pub open spec fn trash_action(selected: int, len: int, key: Key) -> TrashKey {
    let code = key.code;
    if code == KeyCode::Esc || code == KeyCode::Char('q') {
        TrashKey::Close
    } else if code == KeyCode::Enter || code == KeyCode::Char('r') {
        TrashKey::Restore(selected as usize)
    } else if (code == KeyCode::Char('d') || code == KeyCode::Delete || code == KeyCode::Backspace)
        && selected < len {
        TrashKey::AskDelete(selected as usize)
    } else if code == KeyCode::Char('E') && len > 0 {
        TrashKey::AskEmpty
    } else {
        TrashKey::Select(trash_selected(selected, len, key) as usize)
    }
}

/// What a key does in a Trash list of `len` entries.
pub fn trash_key(selected: usize, len: usize, key: &Key) -> (r: TrashKey)
    ensures
        r == trash_action(selected as int, len as int, *key),
{
    let code = key.code;
    if code == KeyCode::Esc || code == KeyCode::Char('q') {
        TrashKey::Close
    } else if code == KeyCode::Enter || code == KeyCode::Char('r') {
        TrashKey::Restore(selected)
    } else if code == KeyCode::Char('d') || code == KeyCode::Delete || code == KeyCode::Backspace {
        if selected < len {
            TrashKey::AskDelete(selected)
        } else {
            TrashKey::Select(trash_selection(selected, len, key))
        }
    } else if code == KeyCode::Char('E') && len > 0 {
        TrashKey::AskEmpty
    } else {
        TrashKey::Select(trash_selection(selected, len, key))
    }
}

/// An answer to a yes/no question.
#[derive(Clone, Copy, PartialEq, Eq, Structural)]
pub enum Choice {
    Yes,
    No,
    Undecided,
}

/// `y`, `Y` and Enter say yes; `n`, `N` and Esc say no; other keys leave the
/// question open.
pub open spec fn choice_of(key: Key) -> Choice {
    let code = key.code;
    if code == KeyCode::Char('y') || code == KeyCode::Char('Y') || code == KeyCode::Enter {
        Choice::Yes
    } else if code == KeyCode::Char('n') || code == KeyCode::Char('N') || code == KeyCode::Esc {
        Choice::No
    } else {
        Choice::Undecided
    }
}

/// The answer a key gives to a yes/no question.
pub fn confirm_key(key: &Key) -> (r: Choice)
    ensures
        r == choice_of(*key),
{
    let code = key.code;
    if code == KeyCode::Char('y') || code == KeyCode::Char('Y') || code == KeyCode::Enter {
        Choice::Yes
    } else if code == KeyCode::Char('n') || code == KeyCode::Char('N') || code == KeyCode::Esc {
        Choice::No
    } else {
        Choice::Undecided
    }
}

/// The group that Up or Down picks among `len` groups: from no pick, Down
/// takes the first and Up the last; from a pick, they step through the ring.
pub open spec fn group_picked(selected: Option<usize>, len: int, down: bool) -> int {
    match selected {
        None => if down {
            0
        } else {
            len - 1
        },
        Some(i) => if down {
            next_of(i as int, len)
        } else {
            previous_of(i as int, len)
        },
    }
}

/// The group that Up or Down picks among `len` groups.
pub fn group_pick(selected: Option<usize>, len: usize, down: bool) -> (r: usize)
    requires
        len > 0,
    ensures
        r == group_picked(selected, len as int, down),
        r < len,
{
    match selected {
        None => if down {
            0
        } else {
            len - 1
        },
        Some(i) => cycle(i, len, down),
    }
}

/// What a key does in the list of alias suggestions.
pub enum SuggestionKey {
    /// Close the list.
    Close,
    /// Add the suggestion at the first row, then select the second.
    Use(usize, usize),
    /// Select this row.
    Select(usize),
}

/// What a key does in a list of `len` suggestions: Esc and `q` close it,
/// Enter and Space add the selected one; every key but those that close
/// moves the selection.
pub open spec fn suggestion_action(selected: int, len: int, key: Key) -> SuggestionKey {
    let code = key.code;
    if code == KeyCode::Esc || code == KeyCode::Char('q') {
        SuggestionKey::Close
    } else if code == KeyCode::Enter || code == KeyCode::Char(' ') {
        SuggestionKey::Use(selected as usize, moved_index(selected, len, key) as usize)
    } else {
        SuggestionKey::Select(moved_index(selected, len, key) as usize)
    }
}

/// What a key does in a list of `len` suggestions.
pub fn suggestion_key(selected: usize, len: usize, key: &Key) -> (r: SuggestionKey)
    ensures
        r == suggestion_action(selected as int, len as int, *key),
{
    let code = key.code;
    if code == KeyCode::Esc || code == KeyCode::Char('q') {
        SuggestionKey::Close
    } else if code == KeyCode::Enter || code == KeyCode::Char(' ') {
        SuggestionKey::Use(selected, move_index(selected, len, key))
    } else {
        SuggestionKey::Select(move_index(selected, len, key))
    }
}

/// How many rows the Settings tab has: theme, suggestions, sun region and
/// four links.
pub const SETTINGS_ROWS: usize = 7;

/// What a key does in the Settings tab.
pub enum SettingsKey {
    /// Select this row.
    Select(usize),
    /// Switch the theme, forward or back.
    Theme(bool),
    /// Turn alias suggestions on or off.
    Suggestions,
    /// Switch the sun region, forward or back.
    SunRegion(bool),
    /// Open the link of this number.
    OpenLink(usize),
    /// Nothing happens.
    Nothing,
}

/// A key that changes a setting: Left, Right, Enter, Space, `h`, `l`.
pub open spec fn change_key(key: Key) -> bool {
    let code = key.code;
    code == KeyCode::Left || code == KeyCode::Right || code == KeyCode::Enter || code
        == KeyCode::Char(' ') || code == KeyCode::Char('h') || code == KeyCode::Char('l')
}

/// What a key does on Settings row `selected`: Up and Down move between the
/// rows; Left and `h` change a setting back, the other change keys forward;
/// Enter and Space open a link.
pub open spec fn settings_action(selected: int, key: Key) -> SettingsKey {
    if up_key(key) || down_key(key) {
        SettingsKey::Select(moved_index(selected, SETTINGS_ROWS as int, key) as usize)
    } else if !change_key(key) {
        SettingsKey::Nothing
    } else {
        let forward = !(key.code == KeyCode::Left || key.code == KeyCode::Char('h'));
        if selected == 0 {
            SettingsKey::Theme(forward)
        } else if selected == 1 {
            SettingsKey::Suggestions
        } else if selected == 2 {
            SettingsKey::SunRegion(forward)
        } else if key.code == KeyCode::Enter || key.code == KeyCode::Char(' ') {
            SettingsKey::OpenLink((selected - 3) as usize)
        } else {
            SettingsKey::Nothing
        }
    }
}

/// What a key does on Settings row `selected`.
pub fn settings_key(selected: usize, key: &Key) -> (r: SettingsKey)
    ensures
        r == settings_action(selected as int, *key),
{
    if is_up(key) || is_down(key) {
        return SettingsKey::Select(move_index(selected, SETTINGS_ROWS, key));
    }
    let code = key.code;
    let change = code == KeyCode::Left || code == KeyCode::Right || code == KeyCode::Enter || code
        == KeyCode::Char(' ') || code == KeyCode::Char('h') || code == KeyCode::Char('l');
    if !change {
        return SettingsKey::Nothing;
    }
    let forward = !(code == KeyCode::Left || code == KeyCode::Char('h'));
    if selected == 0 {
        SettingsKey::Theme(forward)
    } else if selected == 1 {
        SettingsKey::Suggestions
    } else if selected == 2 {
        SettingsKey::SunRegion(forward)
    } else if code == KeyCode::Enter || code == KeyCode::Char(' ') {
        SettingsKey::OpenLink(selected - 3)
    } else {
        SettingsKey::Nothing
    }
}


/// How many alias filters there are: all, favorites, git, docker,
/// navigation, build.
pub const ALIAS_FILTER_COUNT: usize = 6;

/// What a key does in the Aliases tab.
pub enum AliasesKey {
    /// Select this row.
    Select(usize),
    /// Start typing a search.
    Search,
    /// Show the filter of this number; the first row is selected.
    Filter(usize),
    /// Open the form for a new alias.
    Create,
    /// Edit the selected alias.
    Edit,
    /// Pin or unpin the selected alias.
    Favorite,
    /// Move the selected alias to the Trash.
    Delete,
    /// Show the suggestions.
    Suggestions,
    /// Look for aliases in the shell startup files.
    ShellImport,
    /// Write a backup.
    ExportBackup,
    /// Read a backup.
    ImportBackup,
    /// Show the Trash.
    Trash,
    /// Clear the search and the filter.
    Reset,
    /// Nothing happens.
    Nothing,
}

/// What a key does in the Aliases tab, with row `selected` selected and
/// filter `filter` shown: the list keys move, `/` searches, `f` and `F`
/// step through the filters, `n` and `a` create, Enter and `e` edit, Space
/// and `*` pin, `d` and Delete trash, `s` suggests, `i` imports from the
/// shell, `b` and `B` export and import backups, `t` shows the Trash, Esc
/// clears search and filter.
pub open spec fn aliases_action(selected: int, len: int, filter: int, key: Key) -> AliasesKey {
    let code = key.code;
    if nav_key(key) {
        AliasesKey::Select(moved_index(selected, len, key) as usize)
    } else if code == KeyCode::Char('/') {
        AliasesKey::Search
    } else if code == KeyCode::Char('f') {
        AliasesKey::Filter(next_of(filter, ALIAS_FILTER_COUNT as int) as usize)
    } else if code == KeyCode::Char('F') {
        AliasesKey::Filter(previous_of(filter, ALIAS_FILTER_COUNT as int) as usize)
    } else if code == KeyCode::Char('n') || code == KeyCode::Char('a') {
        AliasesKey::Create
    } else if code == KeyCode::Enter || code == KeyCode::Char('e') {
        AliasesKey::Edit
    } else if code == KeyCode::Char(' ') || code == KeyCode::Char('*') {
        AliasesKey::Favorite
    } else if code == KeyCode::Char('d') || code == KeyCode::Delete {
        AliasesKey::Delete
    } else if code == KeyCode::Char('s') {
        AliasesKey::Suggestions
    } else if code == KeyCode::Char('i') {
        AliasesKey::ShellImport
    } else if code == KeyCode::Char('b') {
        AliasesKey::ExportBackup
    } else if code == KeyCode::Char('B') {
        AliasesKey::ImportBackup
    } else if code == KeyCode::Char('t') {
        AliasesKey::Trash
    } else if code == KeyCode::Esc {
        AliasesKey::Reset
    } else {
        AliasesKey::Nothing
    }
}

/// What a key does in the Aliases tab.
pub fn aliases_key(selected: usize, len: usize, filter: usize, key: &Key) -> (r: AliasesKey)
    ensures
        r == aliases_action(selected as int, len as int, filter as int, *key),
{
    let code = key.code;
    if is_nav(key) {
        AliasesKey::Select(move_index(selected, len, key))
    } else if code == KeyCode::Char('/') {
        AliasesKey::Search
    } else if code == KeyCode::Char('f') {
        AliasesKey::Filter(cycle(filter, ALIAS_FILTER_COUNT, true))
    } else if code == KeyCode::Char('F') {
        AliasesKey::Filter(cycle(filter, ALIAS_FILTER_COUNT, false))
    } else if code == KeyCode::Char('n') || code == KeyCode::Char('a') {
        AliasesKey::Create
    } else if code == KeyCode::Enter || code == KeyCode::Char('e') {
        AliasesKey::Edit
    } else if code == KeyCode::Char(' ') || code == KeyCode::Char('*') {
        AliasesKey::Favorite
    } else if code == KeyCode::Char('d') || code == KeyCode::Delete {
        AliasesKey::Delete
    } else if code == KeyCode::Char('s') {
        AliasesKey::Suggestions
    } else if code == KeyCode::Char('i') {
        AliasesKey::ShellImport
    } else if code == KeyCode::Char('b') {
        AliasesKey::ExportBackup
    } else if code == KeyCode::Char('B') {
        AliasesKey::ImportBackup
    } else if code == KeyCode::Char('t') {
        AliasesKey::Trash
    } else if code == KeyCode::Esc {
        AliasesKey::Reset
    } else {
        AliasesKey::Nothing
    }
}

/// What a key does in the Automations tab.
pub enum AutomationsKey {
    /// Move the selection by this many automations (headers are skipped).
    MoveBy(i64),
    /// Start typing a search.
    Search,
    /// Step to the next (true) or previous filter.
    Filter(bool),
    /// Open the editor for a new automation.
    Create,
    /// Edit the selected automation.
    Edit,
    /// Run the selected automation.
    Run,
    /// Show the last run.
    ShowRun,
    /// Pin or unpin the selected automation.
    Favorite,
    /// Choose the group of the selected automation.
    Group,
    /// Edit the schedule of the selected automation.
    Schedule,
    /// Ask before moving the selected automation to the Trash.
    AskDelete,
    /// Write a backup.
    ExportBackup,
    /// Read a backup.
    ImportBackup,
    /// Show the Trash.
    Trash,
    /// Clear the search and show all automations.
    Reset,
    /// Nothing happens.
    Nothing,
}

/// How far a list key moves in the Automations tab: one row with the
/// arrows, ten with Page Up/Down, to either end with Home and End.
pub open spec fn automation_step(key: Key) -> i64 {
    if key.code == KeyCode::PageUp {
        -10i64
    } else if key.code == KeyCode::PageDown {
        10i64
    } else if key.code == KeyCode::Home {
        -10000i64
    } else if key.code == KeyCode::End {
        10000i64
    } else if up_key(key) {
        -1i64
    } else {
        1i64
    }
}

/// What a key does in the Automations tab: the list keys move, `/`
/// searches, `f` and `F` step through the filters, `n` and `a` create, `e`
/// edits, Enter and `r` run, `o` shows the last run, Space and `*` pin, `g`
/// groups, `c` schedules, `d`, Delete and Backspace trash, `b` and `B`
/// export and import backups, `t` shows the Trash, Esc clears.
pub open spec fn automations_action(key: Key) -> AutomationsKey {
    let code = key.code;
    if nav_key(key) {
        AutomationsKey::MoveBy(automation_step(key))
    } else if code == KeyCode::Char('/') {
        AutomationsKey::Search
    } else if code == KeyCode::Char('f') {
        AutomationsKey::Filter(true)
    } else if code == KeyCode::Char('F') {
        AutomationsKey::Filter(false)
    } else if code == KeyCode::Char('n') || code == KeyCode::Char('a') {
        AutomationsKey::Create
    } else if code == KeyCode::Char('e') {
        AutomationsKey::Edit
    } else if code == KeyCode::Enter || code == KeyCode::Char('r') {
        AutomationsKey::Run
    } else if code == KeyCode::Char('o') {
        AutomationsKey::ShowRun
    } else if code == KeyCode::Char(' ') || code == KeyCode::Char('*') {
        AutomationsKey::Favorite
    } else if code == KeyCode::Char('g') {
        AutomationsKey::Group
    } else if code == KeyCode::Char('c') {
        AutomationsKey::Schedule
    } else if code == KeyCode::Char('d') || code == KeyCode::Delete || code == KeyCode::Backspace {
        AutomationsKey::AskDelete
    } else if code == KeyCode::Char('b') {
        AutomationsKey::ExportBackup
    } else if code == KeyCode::Char('B') {
        AutomationsKey::ImportBackup
    } else if code == KeyCode::Char('t') {
        AutomationsKey::Trash
    } else if code == KeyCode::Esc {
        AutomationsKey::Reset
    } else {
        AutomationsKey::Nothing
    }
}

/// What a key does in the Automations tab.
pub fn automations_key(key: &Key) -> (r: AutomationsKey)
    ensures
        r == automations_action(*key),
{
    let code = key.code;
    if is_nav(key) {
        let step: i64 = if code == KeyCode::PageUp {
            -10
        } else if code == KeyCode::PageDown {
            10
        } else if code == KeyCode::Home {
            -10000
        } else if code == KeyCode::End {
            10000
        } else if is_up(key) {
            -1
        } else {
            1
        };
        AutomationsKey::MoveBy(step)
    } else if code == KeyCode::Char('/') {
        AutomationsKey::Search
    } else if code == KeyCode::Char('f') {
        AutomationsKey::Filter(true)
    } else if code == KeyCode::Char('F') {
        AutomationsKey::Filter(false)
    } else if code == KeyCode::Char('n') || code == KeyCode::Char('a') {
        AutomationsKey::Create
    } else if code == KeyCode::Char('e') {
        AutomationsKey::Edit
    } else if code == KeyCode::Enter || code == KeyCode::Char('r') {
        AutomationsKey::Run
    } else if code == KeyCode::Char('o') {
        AutomationsKey::ShowRun
    } else if code == KeyCode::Char(' ') || code == KeyCode::Char('*') {
        AutomationsKey::Favorite
    } else if code == KeyCode::Char('g') {
        AutomationsKey::Group
    } else if code == KeyCode::Char('c') {
        AutomationsKey::Schedule
    } else if code == KeyCode::Char('d') || code == KeyCode::Delete || code == KeyCode::Backspace {
        AutomationsKey::AskDelete
    } else if code == KeyCode::Char('b') {
        AutomationsKey::ExportBackup
    } else if code == KeyCode::Char('B') {
        AutomationsKey::ImportBackup
    } else if code == KeyCode::Char('t') {
        AutomationsKey::Trash
    } else if code == KeyCode::Esc {
        AutomationsKey::Reset
    } else {
        AutomationsKey::Nothing
    }
}


/// The ids that are ticked in a list, each once.
pub open spec fn ticked(checked: Seq<String>) -> Set<Seq<char>> {
    tui_forms::texts(checked).to_set()
}

/// Ticks an id, or unticks it where it was ticked.
pub fn toggle_checked(checked: &mut Vec<String>, id: &str)
    requires
        tui_forms::texts(old(checked)@).no_duplicates(),
    ensures
        tui_forms::texts(final(checked)@).no_duplicates(),
        ticked(final(checked)@) == (if ticked(old(checked)@).contains(id@) {
            ticked(old(checked)@).remove(id@)
        } else {
            ticked(old(checked)@).insert(id@)
        }),
{
    let ghost before = tui_forms::texts(checked@);
    let mut i: usize = 0;
    while i < checked.len()
        invariant
            i <= checked.len(),
            before == tui_forms::texts(old(checked)@),
            before == tui_forms::texts(checked@),
            before.no_duplicates(),
            forall|j: int| 0 <= j < i ==> before[j] != id@,
        decreases checked.len() - i,
    {
        if str_eq(checked[i].as_str(), id) {
            checked.remove(i);
            let ghost after = tui_forms::texts(checked@);
            assert(after =~= before.remove(i as int));
            assert(before.to_set().contains(id@)) by {
                assert(before[i as int] == id@);
            }
            assert forall|j: int, k: int| 0 <= j < k < after.len() implies after[j] != after[k] by {
                let jj = if j < i { j } else { j + 1 };
                let kk = if k < i { k } else { k + 1 };
                assert(after[j] == before[jj]);
                assert(after[k] == before[kk]);
            }
            assert(after.to_set() =~= before.to_set().remove(id@)) by {
                assert forall|x: Seq<char>| after.to_set().contains(x) <==> before.to_set().remove(id@).contains(x) by {
                    if after.contains(x) {
                        let k = choose|k: int| 0 <= k < after.len() && after[k] == x;
                        let kk = if k < i { k } else { k + 1 };
                        assert(before[kk] == x);
                        assert(kk != i);
                        assert(before[i as int] == id@);
                    }
                    if before.contains(x) && x != id@ {
                        let k = choose|k: int| 0 <= k < before.len() && before[k] == x;
                        assert(k != i);
                        let kk = if k < i { k } else { k - 1 };
                        assert(after[kk] == x);
                    }
                }
            }
            return;
        }
        i = i + 1;
    }
    assert(!before.contains(id@));
    checked.push(owned(id));
    let ghost after = tui_forms::texts(checked@);
    assert(after =~= before.push(id@));
    assert(after.to_set() =~= before.to_set().insert(id@)) by {
        assert forall|x: Seq<char>| after.to_set().contains(x) <==> before.to_set().insert(id@).contains(x) by {
            if after.contains(x) {
                let k = choose|k: int| 0 <= k < after.len() && after[k] == x;
                if k < before.len() {
                    assert(before[k] == x);
                }
            }
            if before.contains(x) {
                let k = choose|k: int| 0 <= k < before.len() && before[k] == x;
                assert(after[k] == x);
            }
            assert(after[before.len() as int] == id@);
        }
    }
}

/// Ticking the same id twice leaves the ticked ids as they were.
pub proof fn lemma_toggle_checked_twice(ids: Set<Seq<char>>, id: Seq<char>)
    ensures
        ({
            let once = if ids.contains(id) {
                ids.remove(id)
            } else {
                ids.insert(id)
            };
            let twice = if once.contains(id) {
                once.remove(id)
            } else {
                once.insert(id)
            };
            twice == ids
        }),
{
    if ids.contains(id) {
        assert(ids.remove(id).insert(id) =~= ids);
    } else {
        assert(ids.insert(id).remove(id) =~= ids);
    }
}

/// `a` in a list of choices: with as many ticks as rows every tick is
/// cleared, otherwise every row is ticked.
pub fn toggle_all_checked(checked: &mut Vec<String>, ids: &Vec<String>)
    ensures
        tui_forms::texts(final(checked)@).no_duplicates(),
        old(checked)@.len() == ids@.len() ==> final(checked)@.len() == 0,
        old(checked)@.len() != ids@.len() ==> ticked(final(checked)@) == tui_forms::texts(
            ids@,
        ).to_set(),
{
    if checked.len() == ids.len() {
        *checked = Vec::new();
        assert(tui_forms::texts(checked@) =~= Seq::empty());
        return;
    }
    let mut all: Vec<String> = Vec::new();
    let mut i: usize = 0;
    while i < ids.len()
        invariant
            i <= ids.len(),
            tui_forms::texts(all@).no_duplicates(),
            tui_forms::texts(all@).to_set() == tui_forms::texts(ids@.take(i as int)).to_set(),
        decreases ids.len() - i,
    {
        let ghost before = tui_forms::texts(all@);
        let ghost prefix = tui_forms::texts(ids@.take(i as int));
        let ghost next = tui_forms::texts(ids@.take(i + 1));
        assert(next =~= prefix.push(ids@[i as int]@));
        let mut found = false;
        let mut k: usize = 0;
        while k < all.len()
            invariant
                k <= all.len(),
                i < ids.len(),
                before == tui_forms::texts(all@),
                found ==> before.contains(ids@[i as int]@),
                !found ==> forall|j: int| 0 <= j < k ==> before[j] != ids@[i as int]@,
            decreases all.len() - k,
        {
            if str_eq(all[k].as_str(), ids[i].as_str()) {
                assert(before[k as int] == ids@[i as int]@);
                found = true;
            }
            k = k + 1;
        }
        if !found {
            all.push(owned(ids[i].as_str()));
            let ghost after = tui_forms::texts(all@);
            assert(after =~= before.push(ids@[i as int]@));
            assert(after.to_set() =~= before.to_set().insert(ids@[i as int]@)) by {
                assert forall|x: Seq<char>| after.to_set().contains(x) <==> before.to_set().insert(ids@[i as int]@).contains(x) by {
                    if after.contains(x) {
                        let j = choose|j: int| 0 <= j < after.len() && after[j] == x;
                        if j < before.len() {
                            assert(before[j] == x);
                        }
                    }
                    if before.contains(x) {
                        let j = choose|j: int| 0 <= j < before.len() && before[j] == x;
                        assert(after[j] == x);
                    }
                    assert(after[before.len() as int] == ids@[i as int]@);
                }
            }
        } else {
            assert(before.to_set().insert(ids@[i as int]@) =~= before.to_set());
        }
        assert(next.to_set() =~= prefix.to_set().insert(ids@[i as int]@)) by {
            assert forall|x: Seq<char>| next.to_set().contains(x) <==> prefix.to_set().insert(ids@[i as int]@).contains(x) by {
                if next.contains(x) {
                    let j = choose|j: int| 0 <= j < next.len() && next[j] == x;
                    if j < prefix.len() {
                        assert(prefix[j] == x);
                    }
                }
                if prefix.contains(x) {
                    let j = choose|j: int| 0 <= j < prefix.len() && prefix[j] == x;
                    assert(next[j] == x);
                }
                assert(next[prefix.len() as int] == ids@[i as int]@);
            }
        }
        i = i + 1;
    }
    assert(ids@.take(ids@.len() as int) =~= ids@);
    *checked = all;
}


/// What a key does while a search is typed.
pub enum SearchKey {
    /// Esc: clear the search and stop searching.
    Cancel,
    /// Enter: stop searching, keeping the search.
    Finish,
    /// The arrows and Page Up/Down move the selection (by this many rows
    /// in the automation list).
    Move(i64),
    /// Other keys edit the search; when the search changes, the first row
    /// is selected.
    Edit,
}

/// What a key does while a search is typed.
pub open spec fn search_action(key: Key) -> SearchKey {
    let code = key.code;
    if code == KeyCode::Esc {
        SearchKey::Cancel
    } else if code == KeyCode::Enter {
        SearchKey::Finish
    } else if code == KeyCode::Up {
        SearchKey::Move(-1i64)
    } else if code == KeyCode::Down {
        SearchKey::Move(1i64)
    } else if code == KeyCode::PageUp {
        SearchKey::Move(-10i64)
    } else if code == KeyCode::PageDown {
        SearchKey::Move(10i64)
    } else {
        SearchKey::Edit
    }
}

/// What a key does while a search is typed.
pub fn search_key(key: &Key) -> (r: SearchKey)
    ensures
        r == search_action(*key),
{
    let code = key.code;
    if code == KeyCode::Esc {
        SearchKey::Cancel
    } else if code == KeyCode::Enter {
        SearchKey::Finish
    } else if code == KeyCode::Up {
        SearchKey::Move(-1)
    } else if code == KeyCode::Down {
        SearchKey::Move(1)
    } else if code == KeyCode::PageUp {
        SearchKey::Move(-10)
    } else if code == KeyCode::PageDown {
        SearchKey::Move(10)
    } else {
        SearchKey::Edit
    }
}

} // verus!
