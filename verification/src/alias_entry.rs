//! Alias entries as the editor stores them: validation, the generated
//! `aliases.sh` file, and the 30-day Trash.

use vstd::prelude::*;
use crate::shell_alias;
use crate::text;
use crate::text::{chars_of, is_blank_str, push_str, string_of};
use crate::shell_alias::{validate_alias_name, QuoteMode};
use crate::message::{concat3, str_eq};

verus! {

/// Most aliases a backup, and the active list, may hold.
pub const MAX_BACKUP_ALIASES: usize = 5000;

/// Seconds a deleted alias stays recoverable: 30 days.
pub const TRASH_RETENTION_SECONDS: u64 = 2592000;

/// One alias as the editor stores it in `config.json`.
#[derive(Clone, Debug)]
pub struct AliasEntry {
    pub id: String,
    pub name: String,
    pub path: String,
    pub action: String,
    pub custom_command: Option<String>,
    pub command_preview: String,
    pub favorite: bool,
    pub created_at: String,
    pub updated_at: String,
}

/// The actions an alias can perform.
pub open spec fn known_action(a: Seq<char>) -> bool {
    a == "navigate"@ || a == "open"@ || a == "execute"@ || a == "compile_gradle"@ || a
        == "compile_maven"@ || a == "custom"@
}

/// Why an alias entry is invalid, if it is: the message the editor shows.
pub open spec fn alias_entry_error(a: AliasEntry) -> Option<Seq<char>> {
    if text::trim(a.id@).len() == 0 {
        Some("Alias \""@ + a.name@ + "\" has no id."@)
    } else if !shell_alias::valid_alias_name(a.name@) {
        Some("Invalid alias name: "@ + a.name@ + ""@)
    } else if !known_action(a.action@) {
        Some("Alias \""@ + a.name@ + "\" has an unsupported action."@)
    } else if text::trim(a.command_preview@).len() == 0 {
        Some("Alias "@ + a.name@ + " has no command."@)
    } else if text::trim(a.created_at@).len() == 0 || text::trim(a.updated_at@).len() == 0 {
        Some("Alias \""@ + a.name@ + "\" has incomplete timestamps."@)
    } else {
        None
    }
}

/// Whether an action name is one of the known actions.
pub fn is_known_action(a: &str) -> (r: bool)
    ensures
        r == known_action(a@),
{
    str_eq(a, "navigate") || str_eq(a, "open") || str_eq(a, "execute") || str_eq(
        a,
        "compile_gradle",
    ) || str_eq(a, "compile_maven") || str_eq(a, "custom")
}

/// Checks one alias entry; the error names the first problem found.
pub fn validate_alias_entry(alias: &AliasEntry) -> (r: Result<(), String>)
    ensures
        match r {
            Ok(()) => alias_entry_error(*alias) is None,
            Err(e) => alias_entry_error(*alias) == Some(e@),
        },
{
    if is_blank_str(alias.id.as_str()) {
        return Err(concat3("Alias \"", alias.name.as_str(), "\" has no id."));
    }
    if !validate_alias_name(alias.name.as_str()) {
        return Err(concat3("Invalid alias name: ", alias.name.as_str(), ""));
    }
    if !is_known_action(alias.action.as_str()) {
        return Err(concat3("Alias \"", alias.name.as_str(), "\" has an unsupported action."));
    }
    if is_blank_str(alias.command_preview.as_str()) {
        return Err(concat3("Alias ", alias.name.as_str(), " has no command."));
    }
    if is_blank_str(alias.created_at.as_str()) || is_blank_str(alias.updated_at.as_str()) {
        return Err(concat3("Alias \"", alias.name.as_str(), "\" has incomplete timestamps."));
    }
    Ok(())
}

/// The first problem among the first `n` entries of a collection, in order:
/// an invalid entry, then an id, then a name already used before it.
pub open spec fn collection_error_upto(s: Seq<AliasEntry>, n: int) -> Option<Seq<char>>
    decreases n,
{
    if n <= 0 {
        None
    } else {
        match collection_error_upto(s, n - 1) {
            Some(m) => Some(m),
            None => {
                let a = s[n - 1];
                match alias_entry_error(a) {
                    Some(m) => Some(m),
                    None => if exists|j: int| 0 <= j < n - 1 && s[j].id@ == a.id@ {
                        Some("Duplicate alias id in backup: "@ + a.id@ + ""@)
                    } else if exists|j: int| 0 <= j < n - 1 && s[j].name@ == a.name@ {
                        Some("Duplicate alias name in backup: "@ + a.name@ + ""@)
                    } else {
                        None
                    },
                }
            },
        }
    }
}

/// Why a collection of aliases cannot be stored or restored, if it cannot.
pub open spec fn alias_collection_error(s: Seq<AliasEntry>) -> Option<Seq<char>> {
    if s.len() > MAX_BACKUP_ALIASES {
        Some("Backup contains more than "@ + "5000"@ + " aliases."@)
    } else {
        collection_error_upto(s, s.len() as int)
    }
}

/// Every entry valid, ids pairwise distinct, names pairwise distinct.
pub open spec fn aliases_consistent(s: Seq<AliasEntry>) -> bool {
    &&& forall|i: int| 0 <= i < s.len() ==> alias_entry_error(#[trigger] s[i]) is None
    &&& forall|i: int, j: int|
        0 <= i < j < s.len() ==> s[i].id@ != s[j].id@ && s[i].name@ != s[j].name@
}

proof fn lemma_collection_error_upto(s: Seq<AliasEntry>, n: int)
    requires
        0 <= n <= s.len(),
    ensures
        collection_error_upto(s, n) is None <==> aliases_consistent(s.take(n)),
    decreases n,
{
    if n > 0 {
        lemma_collection_error_upto(s, n - 1);
        assert(s.take(n).take(n - 1) =~= s.take(n - 1));
        if collection_error_upto(s, n) is None {
            let t = s.take(n);
            assert forall|i: int, j: int| 0 <= i < j < t.len() implies t[i].id@ != t[j].id@
                && t[i].name@ != t[j].name@ by {
                if j < n - 1 {
                    assert(s.take(n - 1)[i] == t[i]);
                    assert(s.take(n - 1)[j] == t[j]);
                }
            }
            assert forall|i: int| 0 <= i < t.len() implies alias_entry_error(#[trigger] t[i]) is None by {
                if i < n - 1 {
                    assert(s.take(n - 1)[i] == t[i]);
                }
            }
        } else if collection_error_upto(s, n - 1) is None {
            let t = s.take(n);
            let a = s[n - 1];
            assert(t[n - 1] == a);
            if alias_entry_error(a) is None {
                if exists|j: int| 0 <= j < n - 1 && s[j].id@ == a.id@ {
                    let j = choose|j: int| 0 <= j < n - 1 && s[j].id@ == a.id@;
                    assert(t[j] == s[j]);
                } else {
                    let j = choose|j: int| 0 <= j < n - 1 && s[j].name@ == a.name@;
                    assert(t[j] == s[j]);
                }
            }
        } else {
            let t = s.take(n);
            assert forall|i: int, j: int| 0 <= i < j < n - 1 implies s.take(n - 1)[i] == t[i]
                && s.take(n - 1)[j] == t[j] by {}
            assert forall|i: int| 0 <= i < n - 1 implies s.take(n - 1)[i] == t[i] by {}
        }
    }
}

proof fn lemma_collection_error_stable(s: Seq<AliasEntry>, n: int, m: int)
    requires
        0 <= n <= m,
        collection_error_upto(s, n) is Some,
    ensures
        collection_error_upto(s, m) == collection_error_upto(s, n),
    decreases m - n,
{
    if n < m {
        lemma_collection_error_stable(s, n, m - 1);
    }
}

/// Whether an id or a name of `s[i]` is used by an earlier entry; the first
/// of the two that is.
fn earlier_duplicate(s: &[AliasEntry], i: usize) -> (r: (bool, bool))
    requires
        i < s@.len(),
    ensures
        r.0 == exists|j: int| 0 <= j < i && s@[j].id@ == s@[i as int].id@,
        r.1 == exists|j: int| 0 <= j < i && s@[j].name@ == s@[i as int].name@,
{
    let mut id_seen = false;
    let mut name_seen = false;
    let mut j: usize = 0;
    while j < i
        invariant
            j <= i,
            i < s@.len(),
            id_seen == exists|k: int| 0 <= k < j && s@[k].id@ == s@[i as int].id@,
            name_seen == exists|k: int| 0 <= k < j && s@[k].name@ == s@[i as int].name@,
        decreases i - j,
    {
        if s[j].id == s[i].id {
            id_seen = true;
        }
        if s[j].name == s[i].name {
            name_seen = true;
        }
        j = j + 1;
    }
    (id_seen, name_seen)
}

/// Checks a whole collection of aliases: at most 5000 entries, each valid,
/// and no id or name used twice. The error names the first problem.
pub fn validate_alias_collection(aliases: &[AliasEntry]) -> (r: Result<(), String>)
    ensures
        match r {
            Ok(()) => alias_collection_error(aliases@) is None,
            Err(e) => alias_collection_error(aliases@) == Some(e@),
        },
        r is Ok <==> (aliases@.len() <= MAX_BACKUP_ALIASES && aliases_consistent(aliases@)),
{
    proof {
        lemma_collection_error_upto(aliases@, aliases@.len() as int);
        assert(aliases@.take(aliases@.len() as int) =~= aliases@);
    }
    if aliases.len() > MAX_BACKUP_ALIASES {
        return Err(concat3("Backup contains more than ", "5000", " aliases."));
    }
    let mut i: usize = 0;
    while i < aliases.len()
        invariant
            i <= aliases@.len(),
            aliases@.len() <= MAX_BACKUP_ALIASES,
            collection_error_upto(aliases@, i as int) is None,
        decreases aliases@.len() - i,
    {
        match validate_alias_entry(&aliases[i]) {
            Err(e) => {
                proof {
                    lemma_collection_error_stable(aliases@, i + 1, aliases@.len() as int);
                }
                return Err(e);
            },
            Ok(()) => {},
        }
        let (id_seen, name_seen) = earlier_duplicate(aliases, i);
        if id_seen {
            proof {
                lemma_collection_error_stable(aliases@, i + 1, aliases@.len() as int);
            }
            return Err(concat3("Duplicate alias id in backup: ", aliases[i].id.as_str(), ""));
        }
        if name_seen {
            proof {
                lemma_collection_error_stable(aliases@, i + 1, aliases@.len() as int);
            }
            return Err(concat3("Duplicate alias name in backup: ", aliases[i].name.as_str(), ""));
        }
        i = i + 1;
    }
    Ok(())
}

/// The text inside the single quotes: each `'` written as `'\''`.
pub open spec fn quote_body(v: Seq<char>) -> Seq<char>
    decreases v.len(),
{
    if v.len() == 0 {
        Seq::empty()
    } else {
        quote_body(v.drop_last()) + quote_piece(v.last())
    }
}

/// How one character is written inside single quotes.
pub open spec fn quote_piece(c: char) -> Seq<char> {
    if c == '\'' {
        seq!['\'', '\\', '\'', '\'']
    } else {
        seq![c]
    }
}

/// A value wrapped in single quotes for a bash/zsh alias assignment.
pub open spec fn single_quoted(v: Seq<char>) -> Seq<char> {
    seq!['\''] + quote_body(v) + seq!['\'']
}

/// Wraps a command in single quotes for a bash/zsh alias assignment;
/// embedded single quotes use the portable `'\''` escape.
pub fn single_quote(value: &str) -> (r: String)
    ensures
        r@ == single_quoted(value@),
{
    let s = chars_of(value);
    let mut v: Vec<char> = Vec::new();
    v.push('\'');
    let mut i: usize = 0;
    while i < s.len()
        invariant
            i <= s.len(),
            v@ == seq!['\''] + quote_body(s@.take(i as int)),
        decreases s.len() - i,
    {
        assert(s@.take(i + 1).drop_last() =~= s@.take(i as int));
        if s[i] == '\'' {
            v.push('\'');
            v.push('\\');
            v.push('\'');
            v.push('\'');
        } else {
            v.push(s[i]);
        }
        assert(v@ =~= seq!['\''] + quote_body(s@.take(i + 1)));
        i = i + 1;
    }
    assert(s@.take(s.len() as int) =~= s@);
    v.push('\'');
    string_of(&v)
}

proof fn lemma_quote_body_concat(a: Seq<char>, b: Seq<char>)
    ensures
        quote_body(a + b) == quote_body(a) + quote_body(b),
    decreases b.len(),
{
    if b.len() == 0 {
        assert(a + b =~= a);
        assert(quote_body(a) + quote_body(b) =~= quote_body(a));
    } else {
        lemma_quote_body_concat(a, b.drop_last());
        assert((a + b).drop_last() =~= a + b.drop_last());
        assert((a + b).last() == b.last());
        assert(quote_body(a + b) =~= quote_body(a) + quote_body(b));
    }
}

proof fn lemma_quote_body_front(v: Seq<char>)
    requires
        v.len() > 0,
    ensures
        quote_body(v) == quote_piece(v[0]) + quote_body(v.drop_first()),
{
    lemma_quote_body_concat(seq![v[0]], v.drop_first());
    assert(seq![v[0]] + v.drop_first() =~= v);
    assert(seq![v[0]].drop_last() =~= Seq::<char>::empty());
    assert(quote_body(Seq::<char>::empty()) =~= Seq::<char>::empty());
    assert(seq![v[0]].last() == v[0]);
    assert(quote_body(seq![v[0]]) == quote_body(Seq::<char>::empty()) + quote_piece(v[0]));
    assert(quote_body(seq![v[0]]) =~= quote_piece(v[0]));
}

proof fn lemma_decode_quoted(v: Seq<char>, tail: Seq<char>, acc: Seq<char>)
    ensures
        shell_alias::decode_from(quote_body(v) + seq!['\''] + tail, QuoteMode::Single, acc) == shell_alias::decode_from(
            tail,
            QuoteMode::Unquoted,
            acc + v,
        ),
    decreases v.len(),
{
    if v.len() == 0 {
        let s = quote_body(v) + seq!['\''] + tail;
        assert(s[0] == '\'');
        assert(s.drop_first() =~= tail);
        assert(acc + v =~= acc);
    } else {
        lemma_quote_body_front(v);
        let c = v[0];
        let w = v.drop_first();
        lemma_decode_quoted(w, tail, acc.push(c));
        assert(acc.push(c) + w =~= acc + v);
        let rest = quote_body(w) + seq!['\''] + tail;
        let s = quote_body(v) + seq!['\''] + tail;
        assert(s =~= quote_piece(c) + rest);
        if c == '\'' {
            assert(s[0] == '\'');
            let s1 = s.drop_first();
            assert(s1[0] == '\\');
            assert(s1.drop_first()[0] == '\'');
            let s3 = s1.drop_first().drop_first();
            assert(s3[0] == '\'');
            assert(s3.drop_first() =~= rest);
            assert(shell_alias::decode_from(s, QuoteMode::Single, acc) == shell_alias::decode_from(s1, QuoteMode::Unquoted, acc));
            assert(shell_alias::decode_from(s1, QuoteMode::Unquoted, acc) == shell_alias::decode_from(
                s3,
                QuoteMode::Unquoted,
                acc.push('\''),
            ));
            assert(shell_alias::decode_from(s3, QuoteMode::Unquoted, acc.push('\'')) == shell_alias::decode_from(
                rest,
                QuoteMode::Single,
                acc.push('\''),
            ));
        } else {
            assert(s[0] == c);
            assert(s.drop_first() =~= rest);
            assert(shell_alias::decode_from(s, QuoteMode::Single, acc) == shell_alias::decode_from(
                rest,
                QuoteMode::Single,
                acc.push(c),
            ));
        }
    }
}

/// A single-quoted value decodes back to the value itself, unless it is blank.
pub proof fn lemma_single_quote_roundtrip(v: Seq<char>)
    ensures
        shell_alias::decode_value(single_quoted(v)) == (if text::trim(v).len() == 0 {
            None
        } else {
            Some(v)
        }),
{
    let s = single_quoted(v);
    assert(s[0] == '\'');
    assert(s.drop_first() =~= quote_body(v) + seq!['\''] + Seq::<char>::empty());
    lemma_decode_quoted(v, Seq::<char>::empty(), Seq::<char>::empty());
    assert(Seq::<char>::empty() + v =~= v);
}

/// The line that defines one alias in the generated file.
pub open spec fn alias_line(name: Seq<char>, command: Seq<char>) -> Seq<char> {
    "alias "@ + name + "="@ + single_quoted(command)
}

/// An alias line written by EasyAlias is read back by the importer as the
/// same name and command.
pub proof fn lemma_rendered_alias_line_parses(name: Seq<char>, command: Seq<char>)
    requires
        shell_alias::valid_alias_name(name),
        name != shell_alias::app_alias_name(),
        text::trim(command).len() > 0,
    ensures
        shell_alias::parse_alias_line(alias_line(name, command)) == Some((name, command)),
{
    reveal_strlit("alias ");
    reveal_strlit("=");
    let line = alias_line(name, command);
    let sq = single_quoted(command);
    assert(line =~= shell_alias::alias_keyword() + (seq![' '] + (name + (seq!['='] + sq))));
    assert(!text::is_ws(line[0]));
    assert(line.take(5) =~= shell_alias::alias_keyword());
    let after = line.skip(5);
    assert(after =~= seq![' '] + (name + (seq!['='] + sq)));
    let assignment = name + (seq!['='] + sq);
    assert(after.drop_first() =~= assignment);
    assert(text::is_ws(after[0]));
    assert(!text::is_ws(assignment[0]));
    assert(text::trim_start(after) == text::trim_start(assignment));
    assert(text::trim_start(assignment) == assignment);
    assert(assignment[0] != '-');
    let eq = name.len() as int;
    assert(assignment[eq] == '=');
    assert forall|j: int| 0 <= j < eq implies assignment[j] != '=' by {
        assert(assignment[j] == name[j]);
        if j >= 1 {
            assert(shell_alias::alias_name_char(name[j]));
        }
    }
    let k = choose|i: int|
        0 <= i < assignment.len() && assignment[i] == '=' && forall|j: int|
            0 <= j < i ==> assignment[j] != '=';
    if k < eq {
        assert(assignment[k] != '=');
    }
    if k > eq {
        assert(assignment[eq] != '=');
    }
    assert(shell_alias::first_index(assignment, '=') == Some(eq));
    assert(assignment.take(eq) =~= name);
    assert(!text::is_ws(name[0]));
    assert(text::trim_start(name) == name);
    let last = name.len() - 1;
    if last >= 1 {
        assert(shell_alias::alias_name_char(name[last]));
    }
    assert(!text::is_ws(name.last()));
    assert(text::trim(name) == name);
    assert(assignment.skip(eq + 1) =~= sq);
    assert(sq[0] == '\'');
    assert(text::trim_start(sq) == sq);
    lemma_single_quote_roundtrip(command);
}

/// Converts structured entries into the generated file understood by both
/// bash and zsh: a header, one line per alias, a final newline.
pub open spec fn alias_lines_text(s: Seq<AliasEntry>) -> Seq<char>
    decreases s.len(),
{
    if s.len() == 0 {
        Seq::empty()
    } else {
        alias_lines_text(s.drop_last()) + "\n"@ + alias_line(s.last().name@, s.last().command_preview@)
    }
}

/// The generated aliases file for valid entries.
pub open spec fn rendered_aliases(s: Seq<AliasEntry>) -> Seq<char> {
    "# Generated by EasyAlias.\n# Edit aliases in the app, not by hand.\n"@ + alias_lines_text(s)
        + "\n"@
}

/// The error of the first invalid entry, if any.
pub open spec fn first_entry_error(s: Seq<AliasEntry>) -> Option<Seq<char>>
    decreases s.len(),
{
    if s.len() == 0 {
        None
    } else {
        match first_entry_error(s.drop_last()) {
            Some(m) => Some(m),
            None => alias_entry_error(s.last()),
        }
    }
}

/// Renders the generated aliases file; validation is repeated here because
/// editor input is never trusted.
pub fn render_aliases(aliases: &[AliasEntry]) -> (r: Result<String, String>)
    ensures
        match r {
            Ok(text) => first_entry_error(aliases@) is None && text@ == rendered_aliases(aliases@),
            Err(e) => first_entry_error(aliases@) == Some(e@),
        },
{
    let mut v: Vec<char> = Vec::new();
    push_str(&mut v, "# Generated by EasyAlias.\n# Edit aliases in the app, not by hand.\n");
    let ghost header = "# Generated by EasyAlias.\n# Edit aliases in the app, not by hand.\n"@;
    let mut i: usize = 0;
    while i < aliases.len()
        invariant
            i <= aliases@.len(),
            first_entry_error(aliases@.take(i as int)) is None,
            v@ == header + alias_lines_text(aliases@.take(i as int)),
        decreases aliases@.len() - i,
    {
        assert(aliases@.take(i + 1).drop_last() =~= aliases@.take(i as int));
        assert(aliases@.take(i + 1).last() == aliases@[i as int]);
        match validate_alias_entry(&aliases[i]) {
            Err(e) => {
                proof {
                    lemma_first_entry_error_prefix(aliases@, i as int + 1);
                }
                return Err(e);
            },
            Ok(()) => {},
        }
        push_str(&mut v, "\n");
        push_str(&mut v, "alias ");
        push_str(&mut v, aliases[i].name.as_str());
        push_str(&mut v, "=");
        let q = single_quote(aliases[i].command_preview.as_str());
        push_str(&mut v, q.as_str());
        assert(v@ =~= header + alias_lines_text(aliases@.take(i + 1)));
        i = i + 1;
    }
    assert(aliases@.take(aliases@.len() as int) =~= aliases@);
    push_str(&mut v, "\n");
    Ok(string_of(&v))
}

pub proof fn lemma_first_entry_error_prefix(s: Seq<AliasEntry>, n: int)
    requires
        0 <= n <= s.len(),
        first_entry_error(s.take(n)) is Some,
    ensures
        first_entry_error(s) == first_entry_error(s.take(n)),
    decreases s.len() - n,
{
    if n < s.len() {
        assert(s.take(n + 1).drop_last() =~= s.take(n));
        lemma_first_entry_error_prefix(s, n + 1);
    } else {
        assert(s.take(n) =~= s);
    }
}

} // verus!
