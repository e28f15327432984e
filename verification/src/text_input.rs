//! The single-line text input of the terminal edition: readline-style
//! editing keys and Tab completion of paths.
//!
//! The cursor counts characters, not bytes. Keys arrive as plain values;
//! reading them from the terminal, and listing the directory that a
//! completion looks in, is left to the caller.

use vstd::prelude::*;
use crate::text;
use crate::order;
use crate::text::{chars_of, eq_chars, is_whitespace, push_all, push_str, string_of, starts_with_chars};
use crate::order::{Ordered, sort_in_order, text_less};

verus! {

/// A key, as far as the terminal edition cares.
#[derive(Clone, Copy, PartialEq, Eq, Structural)]
pub enum KeyCode {
    Char(char),
    Backspace,
    Delete,
    Left,
    Right,
    Home,
    End,
    Up,
    Down,
    PageUp,
    PageDown,
    Enter,
    Esc,
    Tab,
    BackTab,
    Other,
}

/// A key press and whether Control, Alt or Shift was held.
#[derive(Clone, Copy, PartialEq, Eq, Structural)]
pub struct Key {
    pub code: KeyCode,
    pub ctrl: bool,
    pub alt: bool,
    pub shift: bool,
}

/// The text being edited and the cursor, a character position.
pub struct TextInput {
    pub value: String,
    pub cursor: usize,
}

/// A control character (Unicode category Cc), as `char::is_control` tells.
pub open spec fn is_control(c: char) -> bool {
    (c as u32) < 0x20 || (0x7f <= (c as u32) && (c as u32) < 0xa0)
}

/// The text without control characters.
pub open spec fn without_controls(s: Seq<char>) -> Seq<char>
    decreases s.len(),
{
    if s.len() == 0 {
        Seq::empty()
    } else if is_control(s.last()) {
        without_controls(s.drop_last())
    } else {
        without_controls(s.drop_last()).push(s.last())
    }
}

/// Where a word deletion starts: back over whitespace, then over the word
/// (a `/` also ends a word); at least one character when the cursor is not
/// at the start.
pub open spec fn word_start(v: Seq<char>, cursor: int) -> int {
    let a = skip_back_spaces(v, cursor);
    let b = skip_back_word(v, a);
    if b == cursor && b > 0 {
        b - 1
    } else {
        b
    }
}

/// Back over whitespace from `i`.
pub open spec fn skip_back_spaces(v: Seq<char>, i: int) -> int
    decreases i,
{
    if i > 0 && text::is_ws(v[i - 1]) {
        skip_back_spaces(v, i - 1)
    } else {
        i
    }
}

/// Back over word characters from `i`.
pub open spec fn skip_back_word(v: Seq<char>, i: int) -> int
    decreases i,
{
    if i > 0 && !text::is_ws(v[i - 1]) && v[i - 1] != '/' {
        skip_back_word(v, i - 1)
    } else {
        i
    }
}

/// The text with the characters `from..to` removed.
pub open spec fn cut(v: Seq<char>, from: int, to: int) -> Seq<char> {
    v.subrange(0, from) + v.subrange(to, v.len() as int)
}

/// What a key does to the text and cursor; `None` when the input does not
/// use the key.
pub open spec fn apply_key(v: Seq<char>, cursor: int, key: Key) -> Option<(Seq<char>, int)> {
    let n = v.len() as int;
    match key.code {
        KeyCode::Char(c) => if key.ctrl {
            if c == 'a' {
                Some((v, 0))
            } else if c == 'e' {
                Some((v, n))
            } else if c == 'u' {
                Some((cut(v, 0, cursor), 0))
            } else if c == 'k' {
                Some((cut(v, cursor, n), cursor))
            } else if c == 'w' {
                let s = word_start(v, cursor);
                Some((cut(v, s, cursor), s))
            } else {
                None
            }
        } else {
            let clean = without_controls(seq![c]);
            Some((v.subrange(0, cursor) + clean + v.subrange(cursor, n), cursor + clean.len()))
        },
        KeyCode::Backspace => if key.ctrl || key.alt {
            let s = word_start(v, cursor);
            Some((cut(v, s, cursor), s))
        } else if cursor > 0 {
            Some((cut(v, cursor - 1, cursor), cursor - 1))
        } else {
            Some((v, cursor))
        },
        KeyCode::Delete => if cursor < n {
            Some((cut(v, cursor, cursor + 1), cursor))
        } else {
            Some((v, cursor))
        },
        KeyCode::Left => Some((v, if cursor > 0 {
            cursor - 1
        } else {
            0
        })),
        KeyCode::Right => Some((v, if cursor + 1 <= n {
            cursor + 1
        } else {
            n
        })),
        KeyCode::Home => Some((v, 0)),
        KeyCode::End => Some((v, n)),
        _ => None,
    }
}

fn is_control_char(c: char) -> (r: bool)
    ensures
        r == is_control(c),
{
    (c as u32) < 0x20 || (0x7f <= (c as u32) && (c as u32) < 0xa0)
}

impl TextInput {
    /// Whether the cursor lies within the text.
    pub open spec fn well_formed(&self) -> bool {
        self.cursor <= self.value@.len()
    }

    /// An input holding `value`, the cursor at its end.
    pub fn new(value: &str) -> (r: TextInput)
        ensures
            r.value@ == value@,
            r.cursor == value@.len(),
    {
        let v = chars_of(value);
        TextInput { value: string_of(&v), cursor: v.len() }
    }

    /// Replaces the text; the cursor moves to its end.
    pub fn set(&mut self, value: &str)
        ensures
            final(self).value@ == value@,
            final(self).cursor == value@.len(),
    {
        let v = chars_of(value);
        self.value = string_of(&v);
        self.cursor = v.len();
    }

    /// Empties the input.
    pub fn clear(&mut self)
        ensures
            final(self).value@.len() == 0,
            final(self).cursor == 0,
    {
        self.set("");
        proof {
            reveal_strlit("");
        }
    }

    /// Inserts text at the cursor, dropping control characters, and moves
    /// the cursor past it.
    pub fn insert_str(&mut self, text: &str)
        requires
            old(self).well_formed(),
        ensures
            final(self).value@ == old(self).value@.subrange(0, old(self).cursor as int)
                + without_controls(text@) + old(self).value@.subrange(
                old(self).cursor as int,
                old(self).value@.len() as int,
            ),
            final(self).cursor == old(self).cursor + without_controls(text@).len(),
            final(self).well_formed(),
    {
        let t = chars_of(text);
        let mut clean: Vec<char> = Vec::new();
        let mut i: usize = 0;
        while i < t.len()
            invariant
                i <= t@.len(),
                clean@ == without_controls(t@.take(i as int)),
            decreases t@.len() - i,
        {
            assert(t@.take(i + 1).drop_last() =~= t@.take(i as int));
            if !is_control_char(t[i]) {
                clean.push(t[i]);
            }
            i = i + 1;
        }
        assert(t@.take(t@.len() as int) =~= t@);
        let v = chars_of(self.value.as_str());
        let c = self.cursor;
        let mut out = crate::text::slice_chars(&v, 0, c);
        push_all(&mut out, &clean);
        let rest = crate::text::slice_chars(&v, c, v.len());
        push_all(&mut out, &rest);
        proof {
            lemma_without_controls_len(text@);
        }
        let pos = out.len() - rest.len();
        assert(pos == c + clean@.len());
        self.value = string_of(&out);
        self.cursor = pos;
    }

    /// Removes the characters `from..to` and puts the cursor at `from`.
    fn delete_range(&mut self, from: usize, to: usize)
        requires
            from <= to <= old(self).value@.len(),
        ensures
            final(self).value@ == cut(old(self).value@, from as int, to as int),
            final(self).cursor == from,
            final(self).well_formed(),
    {
        let v = chars_of(self.value.as_str());
        let mut out = crate::text::slice_chars(&v, 0, from);
        let rest = crate::text::slice_chars(&v, to, v.len());
        push_all(&mut out, &rest);
        self.value = string_of(&out);
        self.cursor = from;
    }

    /// Where deleting the word before the cursor starts.
    fn previous_word_start(&self) -> (r: usize)
        requires
            self.well_formed(),
        ensures
            r == word_start(self.value@, self.cursor as int),
            r <= self.cursor,
    {
        let chars = chars_of(self.value.as_str());
        let mut index = self.cursor;
        while index > 0 && is_whitespace(chars[index - 1])
            invariant
                index <= self.cursor <= chars@.len(),
                chars@ == self.value@,
                skip_back_spaces(chars@, self.cursor as int) == skip_back_spaces(chars@, index as int),
            decreases index,
        {
            index = index - 1;
        }
        let spaces = index;
        while index > 0 && !is_whitespace(chars[index - 1]) && chars[index - 1] != '/'
            invariant
                index <= spaces <= self.cursor <= chars@.len(),
                chars@ == self.value@,
                spaces == skip_back_spaces(chars@, self.cursor as int),
                skip_back_word(chars@, spaces as int) == skip_back_word(chars@, index as int),
            decreases index,
        {
            index = index - 1;
        }
        if index == self.cursor && index > 0 {
            index = index - 1;
        }
        index
    }

    /// Handles an editing key; tells whether the input used it.
    pub fn handle_key(&mut self, key: &Key) -> (consumed: bool)
        requires
            old(self).well_formed(),
        ensures
            final(self).well_formed(),
            match apply_key(old(self).value@, old(self).cursor as int, *key) {
                Some((v, c)) => consumed && final(self).value@ == v && final(self).cursor == c,
                None => !consumed && final(self).value@ == old(self).value@ && final(self).cursor
                    == old(self).cursor,
            },
    {
        let n = chars_of(self.value.as_str()).len();
        match key.code {
            KeyCode::Char(c) => {
                if key.ctrl {
                    if c == 'a' {
                        self.cursor = 0;
                    } else if c == 'e' {
                        self.cursor = n;
                    } else if c == 'u' {
                        let cursor = self.cursor;
                        self.delete_range(0, cursor);
                    } else if c == 'k' {
                        let cursor = self.cursor;
                        self.delete_range(cursor, n);
                    } else if c == 'w' {
                        let start = self.previous_word_start();
                        let cursor = self.cursor;
                        self.delete_range(start, cursor);
                    } else {
                        return false;
                    }
                } else {
                    let mut one: Vec<char> = Vec::new();
                    one.push(c);
                    let s = string_of(&one);
                    self.insert_str(s.as_str());
                }
            },
            KeyCode::Backspace => {
                if key.ctrl || key.alt {
                    let start = self.previous_word_start();
                    let cursor = self.cursor;
                    self.delete_range(start, cursor);
                } else if self.cursor > 0 {
                    let cursor = self.cursor;
                    self.delete_range(cursor - 1, cursor);
                }
            },
            KeyCode::Delete => {
                if self.cursor < n {
                    let cursor = self.cursor;
                    self.delete_range(cursor, cursor + 1);
                }
            },
            KeyCode::Left => {
                if self.cursor > 0 {
                    self.cursor = self.cursor - 1;
                }
            },
            KeyCode::Right => {
                if self.cursor < n {
                    self.cursor = self.cursor + 1;
                } else {
                    self.cursor = n;
                }
            },
            KeyCode::Home => {
                self.cursor = 0;
            },
            KeyCode::End => {
                self.cursor = n;
            },
            _ => {
                return false;
            },
        }
        true
    }
}

proof fn lemma_without_controls_len(s: Seq<char>)
    ensures
        without_controls(s).len() <= s.len(),
    decreases s.len(),
{
    if s.len() > 0 {
        lemma_without_controls_len(s.drop_last());
    }
}

/// An entry of the directory a completion looks in.
pub struct DirEntry {
    pub name: String,
    pub is_dir: bool,
}

/// Entries are offered in name order, files before folders of the same name.
impl Ordered for DirEntry {
    open spec fn goes_before(&self, other: &Self) -> bool {
        order::text_before(self.name@, other.name@) || (self.name@ == other.name@ && !self.is_dir
            && other.is_dir)
    }

    fn before(&self, other: &Self) -> (r: bool) {
        let a = chars_of(self.name.as_str());
        let b = chars_of(other.name.as_str());
        if text_less(&a, &b) {
            return true;
        }
        eq_chars(&a, &b) && !self.is_dir && other.is_dir
    }

    proof fn lemma_asymmetric(a: Self, b: Self) {
        if order::text_before(a.name@, b.name@) {
            order::lemma_text_before_asymmetric(a.name@, b.name@);
        } else if order::text_before(b.name@, a.name@) {
            order::lemma_text_before_asymmetric(b.name@, a.name@);
        }
    }

    proof fn lemma_negatively_transitive(a: Self, b: Self, c: Self) {
        if order::text_before(a.name@, c.name@) {
            order::lemma_text_before_negatively_transitive(a.name@, b.name@, c.name@);
        } else if b.name@ != a.name@ {
            order::lemma_text_before_total(a.name@, b.name@);
        }
    }
}

/// The position of the last `c` in `v`, or -1.
pub open spec fn last_index(v: Seq<char>, c: char) -> int
    decreases v.len(),
{
    if v.len() == 0 {
        -1
    } else if v.last() == c {
        v.len() - 1
    } else {
        last_index(v.drop_last(), c)
    }
}

/// How many leading characters two texts share.
pub open spec fn shared_len(a: Seq<char>, b: Seq<char>) -> nat
    decreases a.len(),
{
    if a.len() == 0 || b.len() == 0 || a[0] != b[0] {
        0
    } else {
        1 + shared_len(a.drop_first(), b.drop_first())
    }
}

/// The longest text that every name starts with.
pub open spec fn common_prefix_of(names: Seq<Seq<char>>) -> Seq<char>
    decreases names.len(),
{
    if names.len() == 0 {
        Seq::empty()
    } else if names.len() == 1 {
        names[0]
    } else {
        let p = common_prefix_of(names.drop_last());
        p.take(shared_len(p, names.last()) as int)
    }
}

proof fn lemma_shared_len_bound(a: Seq<char>, b: Seq<char>)
    ensures
        shared_len(a, b) <= a.len(),
        shared_len(a, b) <= b.len(),
    decreases a.len(),
{
    if !(a.len() == 0 || b.len() == 0 || a[0] != b[0]) {
        lemma_shared_len_bound(a.drop_first(), b.drop_first());
    }
}

fn shared_length(a: &Vec<char>, b: &Vec<char>) -> (r: usize)
    ensures
        r == shared_len(a@, b@),
{
    let mut i: usize = 0;
    assert(a@.skip(0) =~= a@);
    assert(b@.skip(0) =~= b@);
    while i < a.len() && i < b.len() && a[i] == b[i]
        invariant
            i <= a@.len(),
            i <= b@.len(),
            shared_len(a@, b@) == i + shared_len(a@.skip(i as int), b@.skip(i as int)),
        decreases a@.len() - i,
    {
        assert(a@.skip(i as int).drop_first() =~= a@.skip(i + 1));
        assert(b@.skip(i as int).drop_first() =~= b@.skip(i + 1));
        i = i + 1;
    }
    if i < a.len() && i < b.len() {
        assert(a@.skip(i as int)[0] == a@[i as int]);
        assert(b@.skip(i as int)[0] == b@[i as int]);
    }
    i
}

/// The longest text that every name starts with.
pub fn common_prefix(names: &Vec<Vec<char>>) -> (r: Vec<char>)
    ensures
        r@ == common_prefix_of(names@.map_values(|n: Vec<char>| n@)),
{
    let ghost nv = names@.map_values(|n: Vec<char>| n@);
    if names.len() == 0 {
        return Vec::new();
    }
    let mut prefix = names[0].clone();
    let mut i: usize = 1;
    assert(nv.take(1).drop_last() =~= Seq::<Seq<char>>::empty());
    assert(common_prefix_of(nv.take(1)) == nv[0]);
    while i < names.len()
        invariant
            1 <= i <= names@.len(),
            nv == names@.map_values(|n: Vec<char>| n@),
            prefix@ == common_prefix_of(nv.take(i as int)),
        decreases names@.len() - i,
    {
        assert(nv.take(i + 1).drop_last() =~= nv.take(i as int));
        assert(nv.take(i + 1).last() == names@[i as int]@);
        let k = shared_length(&prefix, &names[i]);
        proof {
            lemma_shared_len_bound(prefix@, names@[i as int]@);
        }
        prefix.truncate(k);
        assert(prefix@ =~= common_prefix_of(nv.take(i + 1)));
        i = i + 1;
    }
    assert(nv.take(names@.len() as int) =~= nv);
    prefix
}

/// Whether a listed entry is offered for the typed prefix: it starts with
/// the prefix, and hidden entries only when the prefix starts with a dot.
pub open spec fn offered(e: DirEntry, prefix: Seq<char>) -> bool {
    text::starts_with(e.name@, prefix) && (text::starts_with(prefix, "."@) || !text::starts_with(
        e.name@,
        "."@,
    ))
}

/// The offered entries, in listing order.
pub open spec fn offered_entries(listing: Seq<DirEntry>, prefix: Seq<char>) -> Seq<DirEntry>
    decreases listing.len(),
{
    if listing.len() == 0 {
        Seq::empty()
    } else {
        let prev = offered_entries(listing.drop_last(), prefix);
        if offered(listing.last(), prefix) {
            prev.push(listing.last())
        } else {
            prev
        }
    }
}

/// How a candidate is shown: folders end with `/`.
pub open spec fn shown_name(e: DirEntry) -> Seq<char> {
    if e.is_dir {
        e.name@ + "/"@
    } else {
        e.name@
    }
}

/// The typed text split at its last `/`: the folder part (with the `/`)
/// and the name being typed.
pub open spec fn folder_part(v: Seq<char>) -> Seq<char> {
    v.take(last_index(v, '/') + 1)
}

/// The name being typed: what follows the last `/`.
pub open spec fn typed_name(v: Seq<char>) -> Seq<char> {
    v.skip(last_index(v, '/') + 1)
}

/// What Tab completion does to the typed text `v` given the folder's
/// listing: the new text (`None`: unchanged) and the candidates to show.
/// `~` alone becomes `~/`; one match is completed (folders get a `/`);
/// several extend the text to their longest common prefix.
pub open spec fn completion(v: Seq<char>, listing: Seq<DirEntry>) -> (Option<Seq<char>>, Seq<Seq<char>>) {
    if last_index(v, '/') < 0 && v == "~"@ {
        (Some("~/"@), Seq::empty())
    } else {
        let dir = folder_part(v);
        let prefix = typed_name(v);
        let found = order::in_order(offered_entries(listing, prefix));
        if found.len() == 0 {
            (None, Seq::empty())
        } else if found.len() == 1 {
            (Some(dir + shown_name(found[0])), Seq::empty())
        } else {
            let common = common_prefix_of(found.map_values(|e: DirEntry| e.name@));
            (
                if common.len() > prefix.len() {
                    Some(dir + common)
                } else {
                    None
                },
                found.map_values(|e: DirEntry| shown_name(e)),
            )
        }
    }
}

proof fn lemma_last_index_bounds(v: Seq<char>, c: char)
    ensures
        -1 <= last_index(v, c) < v.len(),
        last_index(v, c) >= 0 ==> v[last_index(v, c)] == c,
        forall|j: int| last_index(v, c) < j < v.len() ==> v[j] != c,
    decreases v.len(),
{
    if v.len() > 0 && v.last() != c {
        lemma_last_index_bounds(v.drop_last(), c);
        assert forall|j: int| last_index(v, c) < j < v.len() implies v[j] != c by {
            if j < v.len() - 1 {
                assert(v.drop_last()[j] == v[j]);
            }
        }
    }
}

fn find_last(v: &Vec<char>, c: char) -> (r: Option<usize>)
    ensures
        match r {
            Some(i) => i == last_index(v@, c),
            None => last_index(v@, c) < 0,
        },
{
    let mut n: usize = v.len();
    assert(v@.take(n as int) =~= v@);
    while n > 0 && v[n - 1] != c
        invariant
            n <= v@.len(),
            last_index(v@, c) == last_index(v@.take(n as int), c),
        decreases n,
    {
        assert(v@.take(n as int).drop_last() =~= v@.take(n - 1));
        n = n - 1;
    }
    if n == 0 {
        None
    } else {
        assert(v@.take(n as int).last() == c);
        Some(n - 1)
    }
}

impl TextInput {
    /// The folder part of the typed text, the folder that Tab completion
    /// looks in (`""`: the current folder); `None` when `~` alone is typed,
    /// which completes without a listing.
    pub fn completion_folder(&self) -> (r: Option<String>)
        ensures
            last_index(self.value@, '/') < 0 && self.value@ == "~"@ ==> r is None,
            !(last_index(self.value@, '/') < 0 && self.value@ == "~"@) ==> r is Some && r->Some_0@
                == folder_part(self.value@),
    {
        let v = chars_of(self.value.as_str());
        proof {
            lemma_last_index_bounds(v@, '/');
        }
        match find_last(&v, '/') {
            Some(i) => {
                assert(i < v@.len());
                assert(v@.subrange(0, i + 1) =~= v@.take(i + 1));
                Some(string_of(&crate::text::slice_chars(&v, 0, i + 1)))
            },
            None => {
                proof {
                    reveal_strlit("~");
                }
                if v.len() == 1 && v[0] == '~' {
                    assert(v@ =~= "~"@);
                    None
                } else {
                    assert(v@.take(0) =~= Seq::<char>::empty());
                    Some(String::new())
                }
            },
        }
    }

    /// Tab completion of a path, given the entries of the folder that
    /// `completion_folder` names; gives the candidates to show when there
    /// are several.
    pub fn complete_path(&mut self, listing: &Vec<DirEntry>) -> (shown: Vec<String>)
        ensures
            ({
                let (next, names) = completion(old(self).value@, listing@);
                &&& shown@.map_values(|s: String| s@) == names
                &&& match next {
                    Some(t) => final(self).value@ == t && final(self).cursor == t.len(),
                    None => final(self).value@ == old(self).value@ && final(self).cursor == old(
                        self,
                    ).cursor,
                }
            }),
    {
        let v = chars_of(self.value.as_str());
        proof {
            lemma_last_index_bounds(v@, '/');
            reveal_strlit("~");
            reveal_strlit("~/");
            reveal_strlit(".");
            reveal_strlit("/");
        }
        let cut_at: usize = match find_last(&v, '/') {
            Some(i) => i + 1,
            None => {
                if v.len() == 1 && v[0] == '~' {
                    assert(v@ =~= "~"@);
                    self.set("~/");
                    return Vec::new();
                }
                0
            },
        };
        assert(!(last_index(v@, '/') < 0 && v@ == "~"@)) by {
            if last_index(v@, '/') < 0 && v@ == "~"@ {
                assert(v@.len() == 1 && v@[0] == '~');
            }
        }
        let dir = crate::text::slice_chars(&v, 0, cut_at);
        let prefix = crate::text::slice_chars(&v, cut_at, v.len());
        assert(dir@ =~= folder_part(v@));
        assert(prefix@ =~= typed_name(v@));
        let dot: Vec<char> = vec!['.'];
        assert(dot@ =~= "."@);
        let show_hidden = starts_with_chars(&prefix, &dot);
        let mut found: Vec<DirEntry> = Vec::new();
        let mut i: usize = 0;
        while i < listing.len()
            invariant
                i <= listing@.len(),
                dot@ == "."@,
                show_hidden == text::starts_with(prefix@, "."@),
                found@ == offered_entries(listing@.take(i as int), prefix@),
            decreases listing@.len() - i,
        {
            assert(listing@.take(i + 1).drop_last() =~= listing@.take(i as int));
            assert(listing@.take(i + 1).last() == listing@[i as int]);
            let name = chars_of(listing[i].name.as_str());
            if starts_with_chars(&name, &prefix) && (show_hidden || !starts_with_chars(&name, &dot)) {
                found.push(DirEntry { name: listing[i].name.clone(), is_dir: listing[i].is_dir });
            }
            i = i + 1;
        }
        assert(listing@.take(listing@.len() as int) =~= listing@);
        sort_in_order(&mut found);
        if found.len() == 0 {
            return Vec::new();
        }
        if found.len() == 1 {
            let mut t = dir.clone();
            push_str(&mut t, found[0].name.as_str());
            if found[0].is_dir {
                t.push('/');
            }
            assert(t@ =~= dir@ + shown_name(found@[0]));
            self.value = string_of(&t);
            self.cursor = t.len();
            return Vec::new();
        }
        let mut names: Vec<Vec<char>> = Vec::new();
        let mut shown: Vec<String> = Vec::new();
        let mut j: usize = 0;
        while j < found.len()
            invariant
                j <= found@.len(),
                names@.len() == j,
                shown@.len() == j,
                forall|k: int| 0 <= k < j ==> (#[trigger] names@[k])@ == found@[k].name@,
                forall|k: int| 0 <= k < j ==> (#[trigger] shown@[k])@ == shown_name(found@[k]),
            decreases found@.len() - j,
        {
            let name = chars_of(found[j].name.as_str());
            let mut label = name.clone();
            if found[j].is_dir {
                label.push('/');
            }
            proof {
                reveal_strlit("/");
            }
            assert(label@ =~= shown_name(found@[j as int]));
            names.push(name);
            shown.push(string_of(&label));
            j = j + 1;
        }
        assert(names@.map_values(|n: Vec<char>| n@) =~= found@.map_values(|e: DirEntry| e.name@));
        assert(shown@.map_values(|s: String| s@) =~= found@.map_values(|e: DirEntry| shown_name(e)));
        let common = common_prefix(&names);
        if common.len() > prefix.len() {
            let mut t = dir.clone();
            push_all(&mut t, &common);
            self.value = string_of(&t);
            self.cursor = t.len();
        }
        shown
    }
}

} // verus!
