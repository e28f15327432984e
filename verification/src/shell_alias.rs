//! Reading aliases out of shell startup files without running a shell.
//!
//! Only unindented, single-line `alias name=value` assignments are offered
//! for import; the value is decoded as one shell word (quotes and
//! backslashes), and names that occur more than once are skipped.

use vstd::prelude::*;
use crate::text;
use std::collections::HashMap;
use crate::text::{join_chars, split_chars, chars_of, eq_chars, is_blank, is_whitespace, lines_chars, push_str, slice_chars, starts_with_chars, string_of, trim_chars, trim_start_chars};

verus! {

/// Quoting state while decoding one shell word.
#[derive(PartialEq, Eq, Structural)]
pub enum QuoteMode {
    Unquoted,
    Single,
    Double,
}

/// The characters that keep their meaning after a backslash inside double quotes.
pub open spec fn double_quote_escapable(c: char) -> bool {
    c == '\\' || c == '$' || c == '`' || c == '"' || c == '\n'
}

/// The decoded word once the input is consumed: quotes must be closed and
/// the word must hold something besides whitespace.
pub open spec fn decode_finish(mode: QuoteMode, acc: Seq<char>) -> Option<Seq<char>> {
    if mode != QuoteMode::Unquoted || text::trim(acc).len() == 0 {
        None
    } else {
        Some(acc)
    }
}

/// Decodes the rest `s` of a shell word in quoting state `mode`, after `acc`
/// has been decoded. Unquoted whitespace ends the word; only a comment may follow.
pub open spec fn decode_from(s: Seq<char>, mode: QuoteMode, acc: Seq<char>) -> Option<Seq<char>>
    decreases s.len(),
{
    if s.len() == 0 {
        decode_finish(mode, acc)
    } else {
        let c = s[0];
        let rest = s.drop_first();
        match mode {
            QuoteMode::Unquoted => {
                if c == '\'' {
                    decode_from(rest, QuoteMode::Single, acc)
                } else if c == '"' {
                    decode_from(rest, QuoteMode::Double, acc)
                } else if c == '\\' {
                    if rest.len() == 0 {
                        None
                    } else {
                        decode_from(rest.drop_first(), QuoteMode::Unquoted, acc.push(rest[0]))
                    }
                } else if text::is_ws(c) {
                    let remainder = text::trim_start(rest);
                    if remainder.len() > 0 && remainder[0] != '#' {
                        None
                    } else {
                        decode_finish(QuoteMode::Unquoted, acc)
                    }
                } else {
                    decode_from(rest, QuoteMode::Unquoted, acc.push(c))
                }
            },
            QuoteMode::Single => {
                if c == '\'' {
                    decode_from(rest, QuoteMode::Unquoted, acc)
                } else {
                    decode_from(rest, QuoteMode::Single, acc.push(c))
                }
            },
            QuoteMode::Double => {
                if c == '"' {
                    decode_from(rest, QuoteMode::Unquoted, acc)
                } else if c == '\\' {
                    if rest.len() == 0 {
                        None
                    } else if double_quote_escapable(rest[0]) {
                        decode_from(rest.drop_first(), QuoteMode::Double, acc.push(rest[0]))
                    } else {
                        decode_from(rest.drop_first(), QuoteMode::Double, acc.push('\\').push(rest[0]))
                    }
                } else {
                    decode_from(rest, QuoteMode::Double, acc.push(c))
                }
            },
        }
    }
}

/// The value of an alias assignment, decoded as one shell word.
pub open spec fn decode_value(s: Seq<char>) -> Option<Seq<char>> {
    decode_from(s, QuoteMode::Unquoted, Seq::empty())
}

pub open spec fn is_ascii_alpha(c: char) -> bool {
    ('a' <= c && c <= 'z') || ('A' <= c && c <= 'Z')
}

pub open spec fn is_ascii_digit(c: char) -> bool {
    '0' <= c && c <= '9'
}

/// A character allowed after the first one of an alias name.
pub open spec fn alias_name_char(c: char) -> bool {
    is_ascii_alpha(c) || is_ascii_digit(c) || c == '_' || c == '-'
}

/// Alias names become shell identifiers and file names: an ASCII letter or
/// `_`, then ASCII letters, digits, `_` or `-`.
pub open spec fn valid_alias_name(s: Seq<char>) -> bool {
    &&& s.len() > 0
    &&& (is_ascii_alpha(s[0]) || s[0] == '_')
    &&& forall|i: int| 1 <= i < s.len() ==> alias_name_char(#[trigger] s[i])
}

/// The name of the alias that reopens EasyAlias itself.
pub open spec fn app_alias_name() -> Seq<char> {
    seq!['e', 'a', 's', 'y', 'a']
}

pub open spec fn alias_keyword() -> Seq<char> {
    seq!['a', 'l', 'i', 'a', 's']
}

/// The first position of `c` in `s`.
pub open spec fn first_index(s: Seq<char>, c: char) -> Option<int> {
    if exists|i: int| 0 <= i < s.len() && s[i] == c {
        Some(
            choose|i: int|
                0 <= i < s.len() && s[i] == c && forall|j: int| 0 <= j < i ==> s[j] != c,
        )
    } else {
        None
    }
}

/// The (name, command) of an importable alias line, if it is one.
pub open spec fn parse_alias_line(line: Seq<char>) -> Option<(Seq<char>, Seq<char>)> {
    if line.len() > 0 && text::is_ws(line[0]) {
        None
    } else if !text::starts_with(line, alias_keyword()) {
        None
    } else {
        let after = line.skip(5);
        if !(after.len() > 0 && text::is_ws(after[0])) {
            None
        } else {
            let assignment = text::trim_start(after);
            if assignment.len() > 0 && assignment[0] == '-' {
                None
            } else {
                match first_index(assignment, '=') {
                    None => None,
                    Some(eq) => {
                        let name = text::trim(assignment.take(eq));
                        if !valid_alias_name(name) || name == app_alias_name() {
                            None
                        } else {
                            match decode_value(text::trim_start(assignment.skip(eq + 1))) {
                                None => None,
                                Some(command) => Some((name, command)),
                            }
                        }
                    },
                }
            }
        }
    }
}

/// The decimal digits of a number.
pub open spec fn decimal(n: nat) -> Seq<char>
    decreases n,
{
    if n < 10 {
        seq![((n + 48) as u32) as char]
    } else {
        decimal(n / 10).push((((n % 10) + 48) as u32) as char)
    }
}

/// A number written in decimal reads back as itself: the text is a
/// nonempty run of ASCII digits whose value is the number, with no leading
/// zero unless the number is 0.
pub proof fn lemma_decimal_reads_back(n: nat)
    ensures
        decimal(n).len() > 0,
        crate::timed::all_digits(decimal(n)),
        crate::timed::digits_value(decimal(n)) == n,
        decimal(n).len() > 1 ==> decimal(n)[0] != '0',
    decreases n,
{
    let d = decimal(n);
    if n < 10 {
        assert(d.drop_last().len() == 0);
        assert(crate::timed::digits_value(d.drop_last()) == 0);
        assert(d.last() == ((n + 48) as u32) as char);
        assert((((n + 48) as u32) as char) as u32 == n + 48);
        assert(crate::timed::digits_value(d) == n);
    } else {
        lemma_decimal_reads_back(n / 10);
        let p = decimal(n / 10);
        let c = (((n % 10) + 48) as u32) as char;
        assert(d == p.push(c));
        assert(d.drop_last() =~= p);
        assert(c as u32 == (n % 10) + 48);
        assert(d[0] == p[0]);
        assert forall|i: int| 0 <= i < d.len() implies '0' <= #[trigger] d[i] && d[i] <= '9' by {
            if i < p.len() {
                assert(d[i] == p[i]);
            }
        }
        assert(crate::timed::digits_value(d) == crate::timed::digits_value(p) * 10 + (n % 10));
        assert((n / 10) * 10 + n % 10 == n);
        if p.len() == 1 {
            assert(n / 10 >= 1);
            if n / 10 >= 10 {
                lemma_decimal_reads_back(n / 10 / 10);
                assert(p.len() == decimal(n / 10 / 10).len() + 1);
            }
            assert(p == seq![(((n / 10) + 48) as u32) as char]);
            assert(p[0] as u32 == (n / 10) + 48);
        }
    }
}

/// The id of an import candidate read from a line.
pub open spec fn line_id(line_number: nat) -> Seq<char> {
    "shell-line-"@ + decimal(line_number)
}

/// An alias found in a shell startup file.
#[derive(Clone, Debug)]
pub struct ShellAliasCandidate {
    pub id: String,
    pub name: String,
    pub command: String,
    pub line_number: usize,
    pub source_file: String,
}

impl ShellAliasCandidate {
    /// (line number, name, command).
    pub open spec fn spec_entry(self) -> (int, Seq<char>, Seq<char>) {
        (self.line_number as int, self.name@, self.command@)
    }
}

/// The importable aliases of a sequence of lines, numbered from 1, in order.
pub open spec fn parsed_lines(ls: Seq<Seq<char>>) -> Seq<(int, Seq<char>, Seq<char>)>
    decreases ls.len(),
{
    if ls.len() == 0 {
        Seq::empty()
    } else {
        let prev = parsed_lines(ls.drop_last());
        match parse_alias_line(ls.last()) {
            Some((name, command)) => prev.push((ls.len() as int, name, command)),
            None => prev,
        }
    }
}

/// How often `name` occurs among the entries.
pub open spec fn name_count(ps: Seq<(int, Seq<char>, Seq<char>)>, name: Seq<char>) -> nat
    decreases ps.len(),
{
    if ps.len() == 0 {
        0
    } else {
        name_count(ps.drop_last(), name) + if ps.last().1 == name {
            1nat
        } else {
            0nat
        }
    }
}

/// The entries of `ps` whose name occurs exactly once in `all`, in order.
pub open spec fn keep_unique(
    ps: Seq<(int, Seq<char>, Seq<char>)>,
    all: Seq<(int, Seq<char>, Seq<char>)>,
) -> Seq<(int, Seq<char>, Seq<char>)>
    decreases ps.len(),
{
    if ps.len() == 0 {
        Seq::empty()
    } else {
        let prev = keep_unique(ps.drop_last(), all);
        if name_count(all, ps.last().1) == 1 {
            prev.push(ps.last())
        } else {
            prev
        }
    }
}

/// The import candidates of a startup file: importable lines whose name is unique.
pub open spec fn shell_aliases_of(ls: Seq<Seq<char>>) -> Seq<(int, Seq<char>, Seq<char>)> {
    keep_unique(parsed_lines(ls), parsed_lines(ls))
}

/// Appends the decimal digits of `n`.
pub fn push_decimal(v: &mut Vec<char>, n: u64)
    ensures
        final(v)@ == old(v)@ + decimal(n as nat),
    decreases n,
{
    if n >= 10 {
        push_decimal(v, n / 10);
    }
    let d = (n % 10) as u8;
    let c = (d + 48) as char;
    v.push(c);
    if n >= 10 {
        assert(decimal(n as nat) == decimal((n / 10) as nat).push(c));
    }
}

/// The decimal digits of `n` as a string.
pub fn decimal_string(n: u64) -> (r: String)
    ensures
        r@ == decimal(n as nat),
{
    let mut v: Vec<char> = Vec::new();
    push_decimal(&mut v, n);
    assert(v@ =~= decimal(n as nat));
    string_of(&v)
}

/// Whether a character is an ASCII letter.
pub fn ascii_alpha(c: char) -> (r: bool)
    ensures
        r == is_ascii_alpha(c),
{
    ('a' <= c && c <= 'z') || ('A' <= c && c <= 'Z')
}

/// Whether a character may follow the first one of an alias name.
pub fn name_char(c: char) -> (r: bool)
    ensures
        r == alias_name_char(c),
{
    ascii_alpha(c) || ('0' <= c && c <= '9') || c == '_' || c == '-'
}

/// Checks an alias name held as characters.
pub fn valid_name_chars(s: &Vec<char>) -> (r: bool)
    ensures
        r == valid_alias_name(s@),
{
    if s.len() == 0 {
        return false;
    }
    if !(ascii_alpha(s[0]) || s[0] == '_') {
        return false;
    }
    let mut i: usize = 1;
    while i < s.len()
        invariant
            1 <= i <= s.len(),
            forall|j: int| 1 <= j < i ==> alias_name_char(#[trigger] s@[j]),
        decreases s.len() - i,
    {
        if !name_char(s[i]) {
            return false;
        }
        i = i + 1;
    }
    true
}

/// Alias names become shell identifiers, so the accepted character set is strict.
pub fn validate_alias_name(name: &str) -> (r: bool)
    ensures
        r == valid_alias_name(name@),
{
    let s = chars_of(name);
    valid_name_chars(&s)
}

/// The first position of `c` in `s`.
pub fn find_char(s: &Vec<char>, c: char) -> (r: Option<usize>)
    ensures
        match r {
            Some(i) => first_index(s@, c) == Some(i as int) && i < s.len(),
            None => first_index(s@, c) is None,
        },
{
    let mut i: usize = 0;
    while i < s.len()
        invariant
            i <= s.len(),
            forall|j: int| 0 <= j < i ==> s@[j] != c,
        decreases s.len() - i,
    {
        if s[i] == c {
            assert(s@[i as int] == c);
            proof {
                let k = choose|k: int|
                    0 <= k < s@.len() && s@[k] == c && forall|j: int| 0 <= j < k ==> s@[j] != c;
                assert(0 <= k < s@.len() && s@[k] == c && forall|j: int|
                    0 <= j < k ==> s@[j] != c);
                if k < i {
                    assert(s@[k] != c);
                }
                if k > i {
                    assert(s@[i as int] != c);
                }
            }
            return Some(i);
        }
        i = i + 1;
    }
    None
}

/// Position of the first non-whitespace character at or after `k`.
fn skip_ws_from(s: &Vec<char>, k: usize) -> (j: usize)
    requires
        k <= s.len(),
    ensures
        k <= j <= s.len(),
        text::trim_start(s@.skip(k as int)) == s@.skip(j as int),
{
    let mut j = k;
    while j < s.len() && is_whitespace(s[j])
        invariant
            k <= j <= s.len(),
            text::trim_start(s@.skip(k as int)) == text::trim_start(s@.skip(j as int)),
        decreases s.len() - j,
    {
        assert(s@.skip(j as int).drop_first() =~= s@.skip(j + 1));
        j = j + 1;
    }
    j
}

fn decode_finish_exec(mode: QuoteMode, acc: Vec<char>) -> (r: Option<Vec<char>>)
    ensures
        match r {
            Some(v) => decode_finish(mode, acc@) == Some(v@),
            None => decode_finish(mode, acc@) is None,
        },
{
    if mode != QuoteMode::Unquoted || is_blank(&acc) {
        None
    } else {
        Some(acc)
    }
}

/// Decodes one shell word held as characters.
pub fn decode_chars(s: &Vec<char>) -> (r: Option<Vec<char>>)
    ensures
        match r {
            Some(v) => decode_value(s@) == Some(v@),
            None => decode_value(s@) is None,
        },
{
    let mut mode = QuoteMode::Unquoted;
    let mut acc: Vec<char> = Vec::new();
    let mut i: usize = 0;
    assert(s@.skip(0) =~= s@);
    while i < s.len()
        invariant
            i <= s.len(),
            decode_value(s@) == decode_from(s@.skip(i as int), mode, acc@),
        decreases s.len() - i,
    {
        let c = s[i];
        let ghost rest = s@.skip(i as int);
        assert(rest[0] == c);
        assert(rest.drop_first() =~= s@.skip(i + 1));
        if i + 1 < s.len() {
            assert(rest.drop_first()[0] == s@[i + 1]);
            assert(rest.drop_first().drop_first() =~= s@.skip(i + 2));
        }
        match mode {
            QuoteMode::Unquoted => {
                if c == '\'' {
                    mode = QuoteMode::Single;
                    i = i + 1;
                } else if c == '"' {
                    mode = QuoteMode::Double;
                    i = i + 1;
                } else if c == '\\' {
                    if i + 1 >= s.len() {
                        return None;
                    }
                    acc.push(s[i + 1]);
                    i = i + 2;
                } else if is_whitespace(c) {
                    let j = skip_ws_from(s, i + 1);
                    if j < s.len() && s[j] != '#' {
                        return None;
                    }
                    return decode_finish_exec(QuoteMode::Unquoted, acc);
                } else {
                    acc.push(c);
                    i = i + 1;
                }
            },
            QuoteMode::Single => {
                if c == '\'' {
                    mode = QuoteMode::Unquoted;
                } else {
                    acc.push(c);
                }
                i = i + 1;
            },
            QuoteMode::Double => {
                if c == '"' {
                    mode = QuoteMode::Unquoted;
                    i = i + 1;
                } else if c == '\\' {
                    if i + 1 >= s.len() {
                        return None;
                    }
                    let e = s[i + 1];
                    if e == '\\' || e == '$' || e == '`' || e == '"' || e == '\n' {
                        acc.push(e);
                    } else {
                        acc.push('\\');
                        acc.push(e);
                    }
                    i = i + 2;
                } else {
                    acc.push(c);
                    i = i + 1;
                }
            },
        }
    }
    decode_finish_exec(mode, acc)
}

/// Decodes one shell word without executing a shell: the value of an alias
/// assignment. `None` for unclosed quotes, a second word, or a blank value.
pub fn decode_alias_value(value: &str) -> (r: Option<String>)
    ensures
        match r {
            Some(v) => decode_value(value@) == Some(v@),
            None => decode_value(value@) is None,
        },
{
    let s = chars_of(value);
    match decode_chars(&s) {
        Some(v) => Some(string_of(&v)),
        None => None,
    }
}

/// Parses one line held as characters into (name, command).
pub fn parse_alias_chars(line: &Vec<char>) -> (r: Option<(Vec<char>, Vec<char>)>)
    ensures
        match r {
            Some((n, c)) => parse_alias_line(line@) == Some((n@, c@)),
            None => parse_alias_line(line@) is None,
        },
{
    if line.len() > 0 && is_whitespace(line[0]) {
        return None;
    }
    let keyword: Vec<char> = vec!['a', 'l', 'i', 'a', 's'];
    assert(keyword@ =~= alias_keyword());
    if !starts_with_chars(line, &keyword) {
        return None;
    }
    let after = slice_chars(line, 5, line.len());
    assert(after@ =~= line@.skip(5));
    if !(after.len() > 0 && is_whitespace(after[0])) {
        return None;
    }
    let assignment = trim_start_chars(&after);
    if assignment.len() > 0 && assignment[0] == '-' {
        return None;
    }
    let eq = match find_char(&assignment, '=') {
        Some(eq) => eq,
        None => {
            return None;
        },
    };
    let raw_name = slice_chars(&assignment, 0, eq);
    assert(raw_name@ =~= assignment@.take(eq as int));
    let name = trim_chars(&raw_name);
    let reserved: Vec<char> = vec!['e', 'a', 's', 'y', 'a'];
    assert(reserved@ =~= app_alias_name());
    if !valid_name_chars(&name) || eq_chars(&name, &reserved) {
        return None;
    }
    let raw_value = slice_chars(&assignment, eq + 1, assignment.len());
    assert(raw_value@ =~= assignment@.skip(eq + 1));
    let value = trim_start_chars(&raw_value);
    match decode_chars(&value) {
        Some(command) => Some((name, command)),
        None => None,
    }
}

/// The id of an import candidate read from line `line_number`.
pub fn line_id_string(line_number: usize) -> (r: String)
    ensures
        r@ == line_id(line_number as nat),
{
    let mut v: Vec<char> = Vec::new();
    push_str(&mut v, "shell-line-");
    push_decimal(&mut v, line_number as u64);
    string_of(&v)
}

/// Only unindented, one-line aliases with one assignment are movable without
/// interpreting arbitrary shell syntax or changing conditional behavior.
pub fn parse_shell_alias_line(line: &str, line_number: usize) -> (r: Option<ShellAliasCandidate>)
    ensures
        match r {
            Some(c) => {
                &&& parse_alias_line(line@) == Some((c.name@, c.command@))
                &&& c.line_number == line_number
                &&& c.id@ == line_id(line_number as nat)
                &&& c.source_file@.len() == 0
            },
            None => parse_alias_line(line@) is None,
        },
{
    let s = chars_of(line);
    match parse_alias_chars(&s) {
        Some((name, command)) => Some(
            ShellAliasCandidate {
                id: line_id_string(line_number),
                name: string_of(&name),
                command: string_of(&command),
                line_number,
                source_file: String::new(),
            },
        ),
        None => None,
    }
}

/// How often `name` occurs among the candidates.
fn count_name(cands: &Vec<ShellAliasCandidate>, name: &String) -> (n: usize)
    ensures
        n as nat == name_count(cands@.map_values(|c: ShellAliasCandidate| c.spec_entry()), name@),
{
    let ghost es = cands@.map_values(|c: ShellAliasCandidate| c.spec_entry());
    let mut n: usize = 0;
    let mut i: usize = 0;
    while i < cands.len()
        invariant
            i <= cands.len(),
            es == cands@.map_values(|c: ShellAliasCandidate| c.spec_entry()),
            n as nat == name_count(es.take(i as int), name@),
            n <= i,
        decreases cands.len() - i,
    {
        assert(es.take(i + 1).drop_last() =~= es.take(i as int));
        if cands[i].name == *name {
            n = n + 1;
        }
        i = i + 1;
    }
    assert(es.take(cands.len() as int) =~= es);
    n
}

/// The candidates whose name occurs exactly once.
pub fn keep_unique_names(parsed: Vec<ShellAliasCandidate>) -> (r: Vec<ShellAliasCandidate>)
    ensures
        r@.map_values(|c: ShellAliasCandidate| c.spec_entry()) == keep_unique(
            parsed@.map_values(|c: ShellAliasCandidate| c.spec_entry()),
            parsed@.map_values(|c: ShellAliasCandidate| c.spec_entry()),
        ),
        forall|i: int|
            0 <= i < r@.len() ==> exists|j: int|
                0 <= j < parsed@.len() && #[trigger] r@[i] == parsed@[j],
{
    let ghost es = parsed@.map_values(|c: ShellAliasCandidate| c.spec_entry());
    let mut r: Vec<ShellAliasCandidate> = Vec::new();
    let mut i: usize = 0;
    while i < parsed.len()
        invariant
            i <= parsed.len(),
            es == parsed@.map_values(|c: ShellAliasCandidate| c.spec_entry()),
            r@.map_values(|c: ShellAliasCandidate| c.spec_entry()) == keep_unique(
                es.take(i as int),
                es,
            ),
            forall|k: int|
                0 <= k < r@.len() ==> exists|j: int|
                    0 <= j < parsed@.len() && #[trigger] r@[k] == parsed@[j],
        decreases parsed.len() - i,
    {
        assert(es.take(i + 1).drop_last() =~= es.take(i as int));
        assert(es.take(i + 1).last() == parsed@[i as int].spec_entry());
        let count = count_name(&parsed, &parsed[i].name);
        if count == 1 {
            let c = ShellAliasCandidate {
                id: parsed[i].id.clone(),
                name: parsed[i].name.clone(),
                command: parsed[i].command.clone(),
                line_number: parsed[i].line_number,
                source_file: parsed[i].source_file.clone(),
            };
            assert(c == parsed@[i as int]);
            r.push(c);
            assert(r@.map_values(|c: ShellAliasCandidate| c.spec_entry()) =~= keep_unique(
                es.take(i as int),
                es,
            ).push(es.take(i + 1).last()));
            assert(r@[r@.len() - 1] == parsed@[i as int]);
        }
        i = i + 1;
    }
    assert(es.take(parsed.len() as int) =~= es);
    r
}

/// The import candidates found in the lines `ls`, numbered from 1.
pub fn parse_lines(ls: &Vec<Vec<char>>) -> (r: Vec<ShellAliasCandidate>)
    ensures
        r@.map_values(|c: ShellAliasCandidate| c.spec_entry()) == parsed_lines(
            ls@.map_values(|l: Vec<char>| l@),
        ),
        forall|i: int|
            0 <= i < r@.len() ==> (#[trigger] r@[i]).id@ == line_id(r@[i].line_number as nat)
                && r@[i].source_file@.len() == 0,
{
    let ghost lv = ls@.map_values(|l: Vec<char>| l@);
    let mut r: Vec<ShellAliasCandidate> = Vec::new();
    let mut i: usize = 0;
    while i < ls.len()
        invariant
            i <= ls.len(),
            lv == ls@.map_values(|l: Vec<char>| l@),
            r@.map_values(|c: ShellAliasCandidate| c.spec_entry()) == parsed_lines(
                lv.take(i as int),
            ),
            forall|k: int|
                0 <= k < r@.len() ==> (#[trigger] r@[k]).id@ == line_id(r@[k].line_number as nat)
                    && r@[k].source_file@.len() == 0,
        decreases ls.len() - i,
    {
        assert(lv.take(i + 1).drop_last() =~= lv.take(i as int));
        assert(lv.take(i + 1).last() == ls@[i as int]@);
        match parse_alias_chars(&ls[i]) {
            Some((name, command)) => {
                let c = ShellAliasCandidate {
                    id: line_id_string(i + 1),
                    name: string_of(&name),
                    command: string_of(&command),
                    line_number: i + 1,
                    source_file: String::new(),
                };
                r.push(c);
                assert(r@.map_values(|c: ShellAliasCandidate| c.spec_entry()) =~= parsed_lines(
                    lv.take(i as int),
                ).push(((i + 1) as int, name@, command@)));
            },
            None => {},
        }
        i = i + 1;
    }
    assert(lv.take(ls.len() as int) =~= lv);
    r
}

/// The aliases of a shell startup file that can be imported: every
/// importable line whose alias name occurs on no other importable line.
pub fn find_shell_aliases(content: &str) -> (r: Vec<ShellAliasCandidate>)
    ensures
        r@.map_values(|c: ShellAliasCandidate| c.spec_entry()) == shell_aliases_of(
            text::lines(content@),
        ),
        forall|i: int|
            0 <= i < r@.len() ==> (#[trigger] r@[i]).id@ == line_id(r@[i].line_number as nat)
                && r@[i].source_file@.len() == 0,
{
    let s = chars_of(content);
    let ls = lines_chars(&s);
    let parsed = parse_lines(&ls);
    keep_unique_names(parsed)
}

/// The importable lines come numbered from 1 up, in increasing order.
proof fn lemma_parsed_lines_increasing(ls: Seq<Seq<char>>)
    ensures
        forall|i: int|
            0 <= i < parsed_lines(ls).len() ==> 1 <= #[trigger] parsed_lines(ls)[i].0 <= ls.len(),
        forall|i: int, j: int|
            0 <= i < j < parsed_lines(ls).len() ==> parsed_lines(ls)[i].0 < parsed_lines(ls)[j].0,
    decreases ls.len(),
{
    if ls.len() > 0 {
        lemma_parsed_lines_increasing(ls.drop_last());
        let prev = parsed_lines(ls.drop_last());
        match parse_alias_line(ls.last()) {
            Some((name, command)) => {
                let cur = prev.push((ls.len() as int, name, command));
                assert(parsed_lines(ls) == cur);
                assert forall|i: int| 0 <= i < cur.len() implies 1 <= #[trigger] cur[i].0 <= ls.len() by {
                    if i < prev.len() {
                        assert(cur[i] == prev[i]);
                    }
                }
                assert forall|i: int, j: int| 0 <= i < j < cur.len() implies cur[i].0 < cur[j].0 by {
                    assert(cur[i] == prev[i]);
                    if j < prev.len() {
                        assert(cur[j] == prev[j]);
                    }
                }
            },
            None => {
                assert(parsed_lines(ls) == prev);
            },
        }
    }
}

/// Whether `x` is an entry of `ps` whose name occurs once in `all`.
pub open spec fn unique_entry_of(
    ps: Seq<(int, Seq<char>, Seq<char>)>,
    all: Seq<(int, Seq<char>, Seq<char>)>,
    x: (int, Seq<char>, Seq<char>),
) -> bool {
    exists|j: int| 0 <= j < ps.len() && x == ps[j] && name_count(all, ps[j].1) == 1
}

/// Every kept entry is an entry of `ps` whose name occurs once in `all`.
proof fn lemma_keep_unique_from(
    ps: Seq<(int, Seq<char>, Seq<char>)>,
    all: Seq<(int, Seq<char>, Seq<char>)>,
)
    ensures
        forall|k: int|
            0 <= k < keep_unique(ps, all).len() ==> unique_entry_of(ps, all, #[trigger] keep_unique(ps, all)[k]),
    decreases ps.len(),
{
    if ps.len() > 0 {
        let prev = ps.drop_last();
        lemma_keep_unique_from(prev, all);
        let kp = keep_unique(prev, all);
        let ks = keep_unique(ps, all);
        assert forall|k: int| 0 <= k < ks.len() implies unique_entry_of(ps, all, #[trigger] ks[k]) by {
            if k < kp.len() {
                assert(ks[k] == kp[k]);
                assert(unique_entry_of(prev, all, kp[k]));
                let j = choose|j: int| 0 <= j < prev.len() && kp[k] == prev[j] && name_count(all, prev[j].1) == 1;
                assert(ps[j] == prev[j]);
            } else {
                assert(ks[k] == ps[ps.len() - 1]);
            }
        }
    }
}

/// Every entry of `ps` whose name occurs once in `all` is kept.
proof fn lemma_keep_unique_complete(
    ps: Seq<(int, Seq<char>, Seq<char>)>,
    all: Seq<(int, Seq<char>, Seq<char>)>,
)
    ensures
        forall|j: int|
            0 <= j < ps.len() && name_count(all, ps[j].1) == 1 ==> exists|k: int|
                0 <= k < keep_unique(ps, all).len() && keep_unique(ps, all)[k] == #[trigger] ps[j],
    decreases ps.len(),
{
    if ps.len() > 0 {
        let prev = ps.drop_last();
        lemma_keep_unique_complete(prev, all);
        let kp = keep_unique(prev, all);
        let ks = keep_unique(ps, all);
        assert forall|j: int| 0 <= j < ps.len() && name_count(all, ps[j].1) == 1 implies exists|k: int|
            0 <= k < ks.len() && ks[k] == #[trigger] ps[j] by {
            if j < prev.len() {
                assert(prev[j] == ps[j]);
                let k = choose|k: int| 0 <= k < kp.len() && kp[k] == #[trigger] prev[j];
                assert(ks[k] == kp[k]);
            } else {
                assert(ks[ks.len() - 1] == ps[j]);
            }
        }
    }
}

/// Kept entries keep the increasing line order of `ps`.
proof fn lemma_keep_unique_increasing(
    ps: Seq<(int, Seq<char>, Seq<char>)>,
    all: Seq<(int, Seq<char>, Seq<char>)>,
)
    requires
        forall|i: int, j: int| 0 <= i < j < ps.len() ==> ps[i].0 < ps[j].0,
    ensures
        forall|k: int, l: int|
            0 <= k < l < keep_unique(ps, all).len() ==> keep_unique(ps, all)[k].0 < keep_unique(
                ps,
                all,
            )[l].0,
    decreases ps.len(),
{
    if ps.len() > 0 {
        let prev = ps.drop_last();
        lemma_keep_unique_increasing(prev, all);
        lemma_keep_unique_from(prev, all);
        let kp = keep_unique(prev, all);
        let ks = keep_unique(ps, all);
        assert forall|k: int, l: int| 0 <= k < l < ks.len() implies ks[k].0 < ks[l].0 by {
            assert(ks[k] == kp[k]);
            if l < kp.len() {
                assert(ks[l] == kp[l]);
            } else {
                assert(unique_entry_of(prev, all, kp[k]));
                let j = choose|j: int| 0 <= j < prev.len() && kp[k] == prev[j] && name_count(all, prev[j].1) == 1;
                assert(ks[l] == ps[ps.len() - 1]);
                assert(prev[j] == ps[j]);
            }
        }
    }
}

/// Two entries at different positions with one name count twice.
proof fn lemma_name_count_two(ps: Seq<(int, Seq<char>, Seq<char>)>, i: int, j: int)
    requires
        0 <= i < j < ps.len(),
        ps[i].1 == ps[j].1,
    ensures
        name_count(ps, ps[j].1) >= 2,
    decreases ps.len(),
{
    lemma_name_count_one(ps.drop_last(), i, ps[j].1);
    if j < ps.len() - 1 {
        lemma_name_count_two(ps.drop_last(), i, j);
    }
}

proof fn lemma_name_count_one(ps: Seq<(int, Seq<char>, Seq<char>)>, i: int, name: Seq<char>)
    requires
        0 <= i < ps.len(),
        ps[i].1 == name,
    ensures
        name_count(ps, name) >= 1,
    decreases ps.len(),
{
    if i < ps.len() - 1 {
        lemma_name_count_one(ps.drop_last(), i, name);
    }
}

/// What import offers of a startup file: no two candidates share a name,
/// they come in increasing line order, and every importable line whose
/// name no other importable line has is offered.
pub proof fn lemma_offered_aliases(ls: Seq<Seq<char>>)
    ensures
        ({
            let parsed = parsed_lines(ls);
            let offered = shell_aliases_of(ls);
            &&& forall|k: int, l: int|
                0 <= k < l < offered.len() ==> offered[k].1 != offered[l].1 && offered[k].0
                    < offered[l].0
            &&& forall|j: int|
                0 <= j < parsed.len() && name_count(parsed, parsed[j].1) == 1 ==> exists|k: int|
                    0 <= k < offered.len() && offered[k] == #[trigger] parsed[j]
        }),
{
    let parsed = parsed_lines(ls);
    let offered = shell_aliases_of(ls);
    lemma_parsed_lines_increasing(ls);
    lemma_keep_unique_from(parsed, parsed);
    lemma_keep_unique_complete(parsed, parsed);
    lemma_keep_unique_increasing(parsed, parsed);
    assert forall|k: int, l: int| 0 <= k < l < offered.len() implies offered[k].1 != offered[l].1 by {
        assert(unique_entry_of(parsed, parsed, offered[k]));
        assert(unique_entry_of(parsed, parsed, offered[l]));
        let a = choose|j: int| 0 <= j < parsed.len() && offered[k] == parsed[j] && name_count(parsed, parsed[j].1) == 1;
        let b = choose|j: int| 0 <= j < parsed.len() && offered[l] == parsed[j] && name_count(parsed, parsed[j].1) == 1;
        if offered[k].1 == offered[l].1 {
            assert(offered[k].0 < offered[l].0);
            assert(a != b);
            if a < b {
                lemma_name_count_two(parsed, a, b);
            } else {
                lemma_name_count_two(parsed, b, a);
            }
        }
    }
}

/// The line that replaces an imported alias in the startup file: a no-op
/// command that records what happened.
pub open spec fn imported_marker(name: Seq<char>) -> Seq<char> {
    ": # EasyAlias imported alias "@ + name
}

/// The pieces with every selected line (numbered from 1) replaced by its marker.
pub open spec fn replace_selected(parts: Seq<Seq<char>>, selected: Map<usize, Seq<char>>) -> Seq<Seq<char>> {
    Seq::new(
        parts.len(),
        |i: int|
            if selected.dom().contains((i + 1) as usize) {
                imported_marker(selected[(i + 1) as usize])
            } else {
                parts[i]
            },
    )
}

/// Whether no selected name holds a line break.
pub open spec fn names_on_one_line(selected: Map<usize, Seq<char>>) -> bool {
    forall|k: usize, i: int|
        selected.dom().contains(k) && 0 <= i < selected[k].len() ==> #[trigger] selected[k][i] != '\n'
}

/// Replacing selected lines keeps the file's shape: as long as no selected
/// name holds a line break, the result has as many lines as the file, each
/// selected line (numbered from 1) reads as its marker and every other line
/// is unchanged; selected numbers beyond the last line are ignored, and
/// selecting nothing gives the file back.
pub proof fn lemma_replacement_keeps_lines(content: Seq<char>, selected: Map<usize, Seq<char>>)
    requires
        names_on_one_line(selected),
    ensures
        ({
            let before = text::split_on(content, '\n');
            let after = text::split_on(
                text::join(replace_selected(before, selected), "\n"@),
                '\n',
            );
            &&& after.len() == before.len()
            &&& forall|k: int|
                0 <= k < before.len() ==> #[trigger] after[k] == if selected.dom().contains(
                    (k + 1) as usize,
                ) {
                    imported_marker(selected[(k + 1) as usize])
                } else {
                    before[k]
                }
            &&& selected.dom().len() == 0 && selected.dom().finite() ==> text::join(
                replace_selected(before, selected),
                "\n"@,
            ) == content
        }),
{
    reveal_strlit("\n");
    reveal_strlit(": # EasyAlias imported alias ");
    let before = text::split_on(content, '\n');
    let parts = replace_selected(before, selected);
    text::lemma_split_on_nonempty(content, '\n');
    text::lemma_join_split(content, '\n');
    assert("\n"@ =~= seq!['\n']);
    assert forall|i: int, j: int| 0 <= i < parts.len() && 0 <= j < parts[i].len() implies parts[i][j]
        != '\n' by {
        if selected.dom().contains((i + 1) as usize) {
            let name = selected[(i + 1) as usize];
            let prefix = ": # EasyAlias imported alias "@;
            if j >= prefix.len() {
                assert(parts[i][j] == name[j - prefix.len()]);
            }
        } else {
            assert(before[i] =~= text::split_on(content, '\n')[i]);
            lemma_pieces_have_no_sep(content, '\n', i);
        }
    }
    text::lemma_split_join(parts, '\n');
    if selected.dom().len() == 0 && selected.dom().finite() {
        assert forall|k: usize| !selected.dom().contains(k) by {
            if selected.dom().contains(k) {
                vstd::set_lib::lemma_set_empty_equivalency_len(selected.dom());
                assert(selected.dom() =~= Set::empty());
            }
        }
        assert(parts =~= before);
    }
}

/// No piece of a split holds the separator.
proof fn lemma_pieces_have_no_sep(s: Seq<char>, c: char, i: int)
    requires
        0 <= i < text::split_on(s, c).len(),
    ensures
        forall|j: int| 0 <= j < text::split_on(s, c)[i].len() ==> text::split_on(s, c)[i][j] != c,
    decreases s.len(),
{
    if s.len() > 0 {
        let prev = text::split_on(s.drop_last(), c);
        text::lemma_split_on_nonempty(s.drop_last(), c);
        if i < prev.len() {
            lemma_pieces_have_no_sep(s.drop_last(), c, i);
        }
        if s.last() != c && i == prev.len() - 1 {
            lemma_pieces_have_no_sep(s.drop_last(), c, i);
        }
    }
}

/// Replaces only the confirmed lines with a marker, keeping every other
/// line, and the file's line endings, as they were.
pub fn replace_imported_alias_lines(content: &str, selected_lines: &HashMap<usize, &str>) -> (r: String)
    ensures
        r@ == text::join(
            replace_selected(
                text::split_on(content@, '\n'),
                selected_lines@.map_values(|name: &str| name@),
            ),
            "\n"@,
        ),
{
    broadcast use vstd::std_specs::hash::group_hash_axioms;

    let s = chars_of(content);
    let parts = split_chars(&s, '\n');
    let ghost pv = parts@.map_values(|l: Vec<char>| l@);
    let mut out: Vec<Vec<char>> = Vec::new();
    let mut i: usize = 0;
    while i < parts.len()
        invariant
            i <= parts.len(),
            pv == parts@.map_values(|l: Vec<char>| l@),
            pv == text::split_on(content@, '\n'),
            out@.len() == i,
            forall|k: int|
                0 <= k < i ==> #[trigger] out@[k]@ == replace_selected(
                    pv,
                    selected_lines@.map_values(|name: &str| name@),
                )[k],
        decreases parts.len() - i,
    {
        match selected_lines.get(&(i + 1)) {
            Some(name) => {
                let mut line: Vec<char> = Vec::new();
                push_str(&mut line, ": # EasyAlias imported alias ");
                push_str(&mut line, *name);
                out.push(line);
            },
            None => {
                out.push(parts[i].clone());
            },
        }
        i = i + 1;
    }
    assert(out@.map_values(|l: Vec<char>| l@) =~= replace_selected(
        pv,
        selected_lines@.map_values(|name: &str| name@),
    ));
    let nl: Vec<char> = vec!['\n'];
    assert(nl@ =~= "\n"@) by {
        reveal_strlit("\n");
    }
    let joined = join_chars(&out, &nl);
    string_of(&joined)
}



/// The marker that replaces an imported alias is never offered for import
/// again: it is not read as an alias, with or without a carriage return at
/// its end.
pub proof fn lemma_marker_not_offered(name: Seq<char>)
    ensures
        parse_alias_line(imported_marker(name)) is None,
        parse_alias_line(text::strip_cr(imported_marker(name))) is None,
{
    reveal_strlit(": # EasyAlias imported alias ");
    reveal_strlit("alias");
    let m = imported_marker(name);
    assert(m[0] == ':');
    assert(!text::is_ws(m[0]));
    assert(!text::starts_with(m, alias_keyword())) by {
        if text::starts_with(m, alias_keyword()) {
            assert(m.take(5)[0] == alias_keyword()[0]);
        }
    }
    let l = text::strip_cr(m);
    assert(l[0] == ':');
    assert(!text::starts_with(l, alias_keyword())) by {
        if text::starts_with(l, alias_keyword()) {
            assert(l.take(5)[0] == alias_keyword()[0]);
        }
    }
}

} // verus!
