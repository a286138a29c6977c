//! Exporting strings as PO, CSV and JSON files, and telling the project's work
//! files apart from the game's.
use vstd::prelude::*;
use crate::text::{
    chars_of, decimal_int, decimal_i64, extend_chars, extend_str, has_infix, has_prefix, has_suffix, opt_text, str_contains, str_ends_with, string_views, str_eq, str_starts_with, string_of,
};

verus! {

// ---------------------------------------------------------------------------
// Work files
// ---------------------------------------------------------------------------

/// `rel` with backslashes turned into slashes.
pub open spec fn slashed(rel: Seq<char>) -> Seq<char> {
    rel.map_values(|c: char| if c == '\\' { '/' } else { c })
}

/// A file of the project's own bookkeeping that a distribution leaves out:
/// the `.renforge` workspace, the databases (and their journals), the
/// extractor's JSON, a disabled original archive, a leftover write probe.
pub open spec fn is_workfile(rel: Seq<char>) -> bool {
    let r = slashed(rel);
    ||| r == ".renforge"@
    ||| has_prefix(r, ".renforge/"@)
    ||| has_infix(r, "/.renforge/"@)
    ||| r == "renforge.db"@
    ||| has_prefix(r, "renforge.db"@)
    ||| r == "renforge_ast.json"@
    ||| r == "renforge_native.json"@
    ||| has_suffix(r, ".renforge-disabled"@)
    ||| has_suffix(r, ".renforge_write_test.tmp"@)
}

fn slashed_exec(rel: &str) -> (r: String)
    ensures
        r@ == slashed(rel@),
{
    let v = chars_of(rel);
    let mut out: Vec<char> = Vec::new();
    let mut i: usize = 0;
    while i < v.len()
        invariant
            i <= v.len(),
            out@ == slashed(v@).take(i as int),
            v@ == rel@,
        decreases v.len() - i,
    {
        out.push(if v[i] == '\\' { '/' } else { v[i] });
        i = i + 1;
        assert(out@ =~= slashed(v@).take(i as int));
    }
    assert(slashed(v@).take(i as int) =~= slashed(v@));
    string_of(&out)
}

/// Whether a path (relative to the project) is one of the project's own work
/// files, which a full-game export leaves out.
pub fn is_renforge_workfile(rel: &str) -> (b: bool)
    ensures
        b == is_workfile(rel@),
{
    let r = slashed_exec(rel);
    let r = r.as_str();
    str_eq(r, ".renforge") || str_starts_with(r, ".renforge/") || str_contains(r, "/.renforge/")
        || str_eq(r, "renforge.db") || str_starts_with(r, "renforge.db") || str_eq(
        r,
        "renforge_ast.json",
    ) || str_eq(r, "renforge_native.json") || str_ends_with(r, ".renforge-disabled")
        || str_ends_with(r, ".renforge_write_test.tmp")
}

// ---------------------------------------------------------------------------
// PO
// ---------------------------------------------------------------------------

/// The gettext escape of one character.
pub open spec fn po_escape_char(c: char) -> Seq<char> {
    if c == '\\' {
        seq!['\\', '\\']
    } else if c == '"' {
        seq!['\\', '"']
    } else if c == '\n' {
        seq!['\\', 'n']
    } else if c == '\t' {
        seq!['\\', 't']
    } else if c == '\r' {
        seq!['\\', 'r']
    } else {
        seq![c]
    }
}

pub open spec fn po_escape_spec(s: Seq<char>) -> Seq<char>
    decreases s.len(),
{
    if s.len() == 0 {
        seq![]
    } else {
        po_escape_char(s[0]) + po_escape_spec(s.skip(1))
    }
}

/// What a gettext reader makes of the escapes that `po_escape_spec` writes.
pub open spec fn po_decode(s: Seq<char>) -> Seq<char>
    decreases s.len(),
{
    if s.len() == 0 {
        seq![]
    } else if s[0] == '\\' && s.len() >= 2 && (s[1] == '\\' || s[1] == '"' || s[1] == 'n' || s[1]
        == 't' || s[1] == 'r') {
        seq![
            if s[1] == 'n' {
                '\n'
            } else if s[1] == 't' {
                '\t'
            } else if s[1] == 'r' {
                '\r'
            } else {
                s[1]
            },
        ] + po_decode(s.skip(2))
    } else {
        seq![s[0]] + po_decode(s.skip(1))
    }
}

fn po_escape_vec(s: &Vec<char>) -> (r: Vec<char>)
    ensures
        r@ == po_escape_spec(s@),
{
    let mut out: Vec<char> = Vec::new();
    let mut i: usize = 0;
    assert(s@.skip(0) =~= s@);
    while i < s.len()
        invariant
            i <= s.len(),
            out@ + po_escape_spec(s@.skip(i as int)) == po_escape_spec(s@),
        decreases s.len() - i,
    {
        let ghost before = out@;
        let c = s[i];
        if c == '\\' {
            out.push('\\');
            out.push('\\');
        } else if c == '"' {
            out.push('\\');
            out.push('"');
        } else if c == '\n' {
            out.push('\\');
            out.push('n');
        } else if c == '\t' {
            out.push('\\');
            out.push('t');
        } else if c == '\r' {
            out.push('\\');
            out.push('r');
        } else {
            out.push(c);
        }
        assert(out@ =~= before + po_escape_char(c));
        assert(s@.skip(i as int).skip(1) =~= s@.skip(i + 1));
        assert(before + po_escape_spec(s@.skip(i as int)) =~= out@ + po_escape_spec(s@.skip(i + 1)));
        i = i + 1;
    }
    assert(out@ + po_escape_spec(s@.skip(i as int)) =~= out@);
    out
}

/// Escapes a string for a gettext (PO) quoted string: backslash, quote, line
/// feed, tab and carriage return.
pub fn po_escape(s: &str) -> (r: String)
    ensures
        r@ == po_escape_spec(s@),
{
    string_of(&po_escape_vec(&chars_of(s)))
}

proof fn lemma_po_decode_char(c: char, t: Seq<char>)
    ensures
        po_decode(po_escape_char(c) + t) == seq![c] + po_decode(t),
{
    let e = po_escape_char(c) + t;
    if c == '\\' || c == '"' || c == '\n' || c == '\t' || c == '\r' {
        assert(e.skip(2) =~= t);
    } else {
        assert(e.skip(1) =~= t);
    }
}

/// A PO reader gets back exactly the exported text, and the escaped text
/// spans a single line.
pub proof fn law_po_escape_round_trip(s: Seq<char>)
    ensures
        po_decode(po_escape_spec(s)) == s,
        !po_escape_spec(s).contains('\n'),
        !po_escape_spec(s).contains('\r'),
    decreases s.len(),
{
    if s.len() > 0 {
        law_po_escape_round_trip(s.skip(1));
        lemma_po_decode_char(s[0], po_escape_spec(s.skip(1)));
        assert(seq![s[0]] + s.skip(1) =~= s);
        let a = po_escape_char(s[0]);
        let b = po_escape_spec(s.skip(1));
        assert forall|i: int| 0 <= i < (a + b).len() implies #[trigger] (a + b)[i] != '\n' && (a
            + b)[i] != '\r' by {
            if i >= a.len() {
                assert((a + b)[i] == b[i - a.len()]);
            }
        }
    }
}

/// A string as the export reads it from the database (absent values empty).
pub struct ExportRow {
    pub id: String,
    pub file: String,
    pub line: i64,
    pub who: Option<String>,
    pub original: String,
    pub translation: String,
    pub status: String,
}

/// Line breaks turned to spaces (for PO comments).
pub open spec fn one_line(s: Seq<char>) -> Seq<char> {
    s.map_values(|c: char| if c == '\n' || c == '\r' { ' ' } else { c })
}

fn one_line_exec(s: &str) -> (r: Vec<char>)
    ensures
        r@ == one_line(s@),
{
    let v = chars_of(s);
    let mut out: Vec<char> = Vec::new();
    let mut i: usize = 0;
    while i < v.len()
        invariant
            i <= v.len(),
            v@ == s@,
            out@ == one_line(v@).take(i as int),
        decreases v.len() - i,
    {
        out.push(if v[i] == '\n' || v[i] == '\r' { ' ' } else { v[i] });
        i = i + 1;
        assert(out@ =~= one_line(v@).take(i as int));
    }
    assert(one_line(v@).take(i as int) =~= one_line(v@));
    out
}

pub open spec fn po_header(target_lang: Seq<char>) -> Seq<char> {
    "msgid \"\"\nmsgstr \"\"\n"@ + "\"Project-Id-Version: RenForge\\n\"\n"@ + "\"Language: "@ + target_lang
        + "\\n\"\n"@ + "\"Content-Type: text/plain; charset=UTF-8\\n\"\n\n"@
}

/// One PO entry: a reference comment `file:line`, the speaker when known, the
/// fuzzy flag for strings to review, then `msgctxt` (the id), `msgid`, `msgstr`.
pub open spec fn po_entry(e: ExportRow) -> Seq<char> {
    let who = opt_text(e.who);
    "#: "@ + one_line(e.file@) + ":"@ + decimal_int(e.line as int) + "\n"@ + (if who.len() > 0 {
        "#. who: "@ + one_line(who) + "\n"@
    } else {
        seq![]
    }) + (if e.status@ == "outdated"@ {
        "#, fuzzy\n"@
    } else {
        seq![]
    }) + "msgctxt \""@ + po_escape_spec(e.id@) + "\"\n"@ + "msgid \""@ + po_escape_spec(e.original@)
        + "\"\n"@ + "msgstr \""@ + po_escape_spec(e.translation@) + "\"\n\n"@
}

pub open spec fn po_entries(es: Seq<ExportRow>) -> Seq<char>
    decreases es.len(),
{
    if es.len() == 0 {
        seq![]
    } else {
        po_entries(es.drop_last()) + po_entry(es.last())
    }
}

#[verifier::spinoff_prover]
fn po_entry_exec(e: &ExportRow) -> (s: Vec<char>)
    ensures
        s@ == po_entry(*e),
{
    let mut s: Vec<char> = chars_of("#: ");
    extend_chars(&mut s, &one_line_exec(e.file.as_str()));
    extend_str(&mut s, ":");
    extend_chars(&mut s, &decimal_i64(e.line));
    extend_str(&mut s, "\n");
    let ghost a = s@;
    let who: Vec<char> = match &e.who {
        Some(w) => {
            if !w.as_str().is_empty() {
                let mut t = chars_of("#. who: ");
                extend_chars(&mut t, &one_line_exec(w.as_str()));
                extend_str(&mut t, "\n");
                t
            } else {
                Vec::new()
            }
        },
        None => Vec::new(),
    };
    assert(who@ =~= if opt_text(e.who).len() > 0 {
        "#. who: "@ + one_line(opt_text(e.who)) + "\n"@
    } else {
        seq![]
    });
    extend_chars(&mut s, &who);
    if str_eq(e.status.as_str(), "outdated") {
        extend_str(&mut s, "#, fuzzy\n");
    }
    let ghost b = s@;
    let mut tail = chars_of("msgctxt \"");
    extend_chars(&mut tail, &po_escape_vec(&chars_of(e.id.as_str())));
    extend_str(&mut tail, "\"\n");
    extend_str(&mut tail, "msgid \"");
    extend_chars(&mut tail, &po_escape_vec(&chars_of(e.original.as_str())));
    extend_str(&mut tail, "\"\n");
    extend_str(&mut tail, "msgstr \"");
    extend_chars(&mut tail, &po_escape_vec(&chars_of(e.translation.as_str())));
    extend_str(&mut tail, "\"\n\n");
    extend_chars(&mut s, &tail);
    assert(s@ =~= po_entry(*e));
    s
}

/// A PO file for the entries.
pub fn build_po(entries: &[ExportRow], target_lang: &str) -> (r: String)
    ensures
        r@ == po_header(target_lang@) + po_entries(entries@),
{
    let mut s: Vec<char> = chars_of("msgid \"\"\nmsgstr \"\"\n");
    extend_str(&mut s, "\"Project-Id-Version: RenForge\\n\"\n");
    extend_str(&mut s, "\"Language: ");
    extend_str(&mut s, target_lang);
    extend_str(&mut s, "\\n\"\n");
    extend_str(&mut s, "\"Content-Type: text/plain; charset=UTF-8\\n\"\n\n");
    let ghost head = s@;
    assert(head =~= po_header(target_lang@));
    let mut i: usize = 0;
    while i < entries.len()
        invariant
            i <= entries.len(),
            s@ == head + po_entries(entries@.take(i as int)),
        decreases entries.len() - i,
    {
        assert(entries@.take(i + 1).drop_last() =~= entries@.take(i as int));
        assert(entries@.take(i + 1).last() == entries@[i as int]);
        let e = &entries[i];
        let ghost before = s@;
        let entry = po_entry_exec(e);
        extend_chars(&mut s, &entry);
        assert(s@ =~= before + po_entry(*e));
        i = i + 1;
    }
    assert(entries@.take(i as int) =~= entries@);
    string_of(&s)
}

// ---------------------------------------------------------------------------
// CSV
// ---------------------------------------------------------------------------

/// A CSV field character: quotes doubled, line feeds written as `[BR]`.
pub open spec fn csv_char(c: char) -> Seq<char> {
    if c == '"' {
        seq!['"', '"']
    } else if c == '\n' {
        seq!['[', 'B', 'R', ']']
    } else {
        seq![c]
    }
}

pub open spec fn csv_text(s: Seq<char>) -> Seq<char>
    decreases s.len(),
{
    if s.len() == 0 {
        seq![]
    } else {
        csv_char(s[0]) + csv_text(s.skip(1))
    }
}

/// A character that makes a spreadsheet read a cell as a formula.
pub open spec fn formula_start(c: char) -> bool {
    c == '=' || c == '+' || c == '-' || c == '@'
}

/// The translation cell: escaped, and behind a `'` when it would start a formula.
pub open spec fn csv_translation(t: Seq<char>) -> Seq<char> {
    let e = csv_text(t);
    if e.len() > 0 && formula_start(e[0]) {
        seq!['\''] + e
    } else {
        e
    }
}

pub open spec fn csv_line(e: ExportRow) -> Seq<char> {
    "\""@ + e.id@ + "\";\""@ + csv_text(e.original@) + "\";\""@ + csv_translation(e.translation@)
        + "\"\n"@
}

pub open spec fn csv_lines(es: Seq<ExportRow>) -> Seq<char>
    decreases es.len(),
{
    if es.len() == 0 {
        seq![]
    } else {
        csv_lines(es.drop_last()) + csv_line(es.last())
    }
}

fn csv_vec(s: &Vec<char>) -> (r: Vec<char>)
    ensures
        r@ == csv_text(s@),
{
    let mut out: Vec<char> = Vec::new();
    let mut i: usize = 0;
    assert(s@.skip(0) =~= s@);
    while i < s.len()
        invariant
            i <= s.len(),
            out@ + csv_text(s@.skip(i as int)) == csv_text(s@),
        decreases s.len() - i,
    {
        let ghost before = out@;
        let c = s[i];
        if c == '"' {
            out.push('"');
            out.push('"');
        } else if c == '\n' {
            out.push('[');
            out.push('B');
            out.push('R');
            out.push(']');
        } else {
            out.push(c);
        }
        assert(out@ =~= before + csv_char(c));
        assert(s@.skip(i as int).skip(1) =~= s@.skip(i + 1));
        assert(before + csv_text(s@.skip(i as int)) =~= out@ + csv_text(s@.skip(i + 1)));
        i = i + 1;
    }
    assert(out@ + csv_text(s@.skip(i as int)) =~= out@);
    out
}

/// A semicolon-separated CSV of id, original and translation.
pub fn build_csv(entries: &[ExportRow]) -> (r: String)
    ensures
        r@ == "ID;Original;Translation\n"@ + csv_lines(entries@),
{
    let mut s: Vec<char> = chars_of("ID;Original;Translation\n");
    let ghost head = s@;
    let mut i: usize = 0;
    while i < entries.len()
        invariant
            i <= entries.len(),
            head == "ID;Original;Translation\n"@,
            s@ == head + csv_lines(entries@.take(i as int)),
        decreases entries.len() - i,
    {
        assert(entries@.take(i + 1).drop_last() =~= entries@.take(i as int));
        assert(entries@.take(i + 1).last() == entries@[i as int]);
        let e = &entries[i];
        let ghost before = s@;
        let orig = csv_vec(&chars_of(e.original.as_str()));
        let tran0 = csv_vec(&chars_of(e.translation.as_str()));
        let tran = if tran0.len() > 0 && (tran0[0] == '=' || tran0[0] == '+' || tran0[0] == '-'
            || tran0[0] == '@') {
            let mut t: Vec<char> = Vec::new();
            t.push('\'');
            extend_chars(&mut t, &tran0);
            t
        } else {
            tran0
        };
        assert(tran@ =~= csv_translation(e.translation@));
        extend_str(&mut s, "\"");
        extend_str(&mut s, e.id.as_str());
        extend_str(&mut s, "\";\"");
        extend_chars(&mut s, &orig);
        extend_str(&mut s, "\";\"");
        extend_chars(&mut s, &tran);
        extend_str(&mut s, "\"\n");
        assert(s@ =~= before + csv_line(*e));
        i = i + 1;
    }
    assert(entries@.take(i as int) =~= entries@);
    string_of(&s)
}

/// A translation cell never starts a spreadsheet formula.
pub proof fn law_csv_no_formula(t: Seq<char>)
    ensures
        csv_translation(t).len() == 0 || !formula_start(csv_translation(t)[0]),
{
}

// ---------------------------------------------------------------------------
// JSON
// ---------------------------------------------------------------------------

/// What `serde_json::to_string_pretty` gives for a list of objects with the
/// keys `id`, `original`, `translation` (`None` when it fails).
pub uninterp spec fn json_pretty_records(rows: Seq<(Seq<char>, Seq<char>, Seq<char>)>) -> Option<Seq<char>>;

/// Calls `serde_json::to_string_pretty` on a list of objects
/// `{"id", "original", "translation"}` (ordered maps, so the keys come in that
/// order); the text is named `json_pretty_records` of the triples, and an
/// error carries serde's message, which no clause states.
#[verifier::external_body]
fn to_json_pretty_records(rows: &Vec<(String, String, String)>) -> (r: Result<String, String>)
    ensures
        match r {
            Ok(t) => json_pretty_records(triple_views(rows@))
                == Some(t@),
            Err(_) => json_pretty_records(triple_views(rows@)) is None,
        },
{
    let v: Vec<std::collections::BTreeMap<&str, &str>> = rows.iter().map(|(a, b, c)|
        std::collections::BTreeMap::from([("id", a.as_str()), ("original", b.as_str()), ("translation", c.as_str())])
    ).collect();
    serde_json::to_string_pretty(&v).map_err(|e| e.to_string())
}

pub open spec fn triple_views(v: Seq<(String, String, String)>) -> Seq<(Seq<char>, Seq<char>, Seq<char>)> {
    v.map_values(|x: (String, String, String)| (x.0@, x.1@, x.2@))
}

pub open spec fn json_triples(es: Seq<ExportRow>) -> Seq<(Seq<char>, Seq<char>, Seq<char>)> {
    es.map_values(|e: ExportRow| (e.id@, e.original@, e.translation@))
}

/// A pretty-printed JSON array of `{id, original, translation}`.
pub fn build_json(entries: &[ExportRow]) -> (r: Result<String, String>)
    ensures
        match r {
            Ok(t) => json_pretty_records(json_triples(entries@)) == Some(t@),
            Err(_) => json_pretty_records(json_triples(entries@)) is None,
        },
{
    let mut v: Vec<(String, String, String)> = Vec::new();
    let mut i: usize = 0;
    while i < entries.len()
        invariant
            i <= entries.len(),
            triple_views(v@) == json_triples(entries@).take(i as int),
        decreases entries.len() - i,
    {
        let ghost before = triple_views(v@);
        v.push((entries[i].id.clone(), entries[i].original.clone(), entries[i].translation.clone()));
        assert(triple_views(v@) =~= before.push((entries@[i as int].id@, entries@[i as int].original@, entries@[i as int].translation@)));
        assert(triple_views(v@) =~= json_triples(entries@).take(i + 1));
        i = i + 1;
    }
    assert(json_triples(entries@).take(i as int) =~= json_triples(entries@));
    to_json_pretty_records(&v)
}

// ---------------------------------------------------------------------------
// Export paths
// ---------------------------------------------------------------------------

/// The components of a database path that an export keeps: split at `/` and
/// `\\`, without empty, `.` and `..` components.
pub open spec fn safe_components_from(s: Seq<char>, cur: Seq<char>) -> Seq<Seq<char>>
    decreases s.len(),
{
    if s.len() == 0 {
        keep_component(cur)
    } else if s[0] == '/' || s[0] == '\\' {
        keep_component(cur) + safe_components_from(s.skip(1), seq![])
    } else {
        safe_components_from(s.skip(1), cur.push(s[0]))
    }
}

pub open spec fn keep_component(c: Seq<char>) -> Seq<Seq<char>> {
    if c.len() == 0 || c == seq!['.'] || c == seq!['.', '.'] {
        seq![]
    } else {
        seq![c]
    }
}

pub open spec fn safe_components(rel: Seq<char>) -> Seq<Seq<char>> {
    safe_components_from(rel, seq![])
}

fn keep_component_exec(out: &mut Vec<String>, c: &Vec<char>)
    ensures
        string_views(final(out)@) == string_views(old(out)@) + keep_component(c@),
{
    let ghost before = string_views(out@);
    let dot = c.len() == 1 && c[0] == '.';
    let dotdot = c.len() == 2 && c[0] == '.' && c[1] == '.';
    assert(dot == (c@ == seq!['.'])) by {
        if c@ == seq!['.'] {
            assert(c@[0] == '.');
        }
        if dot {
            assert(c@ =~= seq!['.']);
        }
    }
    assert(dotdot == (c@ == seq!['.', '.'])) by {
        if c@ == seq!['.', '.'] {
            assert(c@[0] == '.' && c@[1] == '.');
        }
        if dotdot {
            assert(c@ =~= seq!['.', '.']);
        }
    }
    if !(c.len() == 0 || dot || dotdot) {
        out.push(string_of(c));
        assert(string_views(out@) =~= before + seq![c@]);
    } else {
        assert(string_views(out@) =~= before + keep_component(c@));
    }
}

/// The path components under which an exported file of `rel_file` is
/// written: `.`, `..` and empty components are dropped, so the file stays
/// inside the export folder.
pub fn safe_path_components(rel_file: &str) -> (r: Vec<String>)
    ensures
        string_views(r@) == safe_components(rel_file@),
{
    let s = chars_of(rel_file);
    let mut out: Vec<String> = Vec::new();
    let mut cur: Vec<char> = Vec::new();
    let mut i: usize = 0;
    assert(s@.skip(0) =~= s@);
    while i < s.len()
        invariant
            i <= s.len(),
            s@ == rel_file@,
            string_views(out@) + safe_components_from(s@.skip(i as int), cur@) == safe_components(rel_file@),
        decreases s.len() - i,
    {
        assert(s@.skip(i as int).skip(1) =~= s@.skip(i + 1));
        if s[i] == '/' || s[i] == '\\' {
            let ghost before = string_views(out@);
            keep_component_exec(&mut out, &cur);
            assert(before + safe_components_from(s@.skip(i as int), cur@) =~= string_views(out@)
                + safe_components_from(s@.skip(i + 1), seq![]));
            cur = Vec::new();
        } else {
            cur.push(s[i]);
        }
        i = i + 1;
    }
    assert(s@.skip(i as int) =~= Seq::<char>::empty());
    keep_component_exec(&mut out, &cur);
    out
}

/// No exported path component is empty, `.` or `..`: an export cannot leave
/// its folder.
pub proof fn law_export_path_confined(rel: Seq<char>)
    ensures
        forall|i: int|
            0 <= i < safe_components(rel).len() ==> {
                let c = #[trigger] safe_components(rel)[i];
                c.len() > 0 && c != seq!['.'] && c != seq!['.', '.']
            },
{
    lemma_components_ok(rel, seq![]);
}

proof fn lemma_components_ok(s: Seq<char>, cur: Seq<char>)
    ensures
        forall|i: int|
            0 <= i < safe_components_from(s, cur).len() ==> {
                let c = #[trigger] safe_components_from(s, cur)[i];
                c.len() > 0 && c != seq!['.'] && c != seq!['.', '.']
            },
    decreases s.len(),
{
    if s.len() == 0 {
        let a = keep_component(cur);
        assert(safe_components_from(s, cur) == a);
        assert forall|i: int| 0 <= i < a.len() implies {
            let c = #[trigger] a[i];
            c.len() > 0 && c != seq!['.'] && c != seq!['.', '.']
        } by {
            assert(a[i] == cur);
        }
    } else {
        if s[0] == '/' || s[0] == '\\' {
            lemma_components_ok(s.skip(1), seq![]);
            let a = keep_component(cur);
            let b = safe_components_from(s.skip(1), seq![]);
            assert(safe_components_from(s, cur) == a + b);
            assert forall|i: int| 0 <= i < (a + b).len() implies {
                let c = #[trigger] (a + b)[i];
                c.len() > 0 && c != seq!['.'] && c != seq!['.', '.']
            } by {
                if i >= a.len() {
                    assert((a + b)[i] == b[i - a.len()]);
                }
            }
        } else {
            lemma_components_ok(s.skip(1), cur.push(s[0]));
            assert(safe_components_from(s, cur) == safe_components_from(s.skip(1), cur.push(s[0])));
        }
    }
}

/// Where an exported file goes below the export folder: the format's folder,
/// then the kept components of the script's path, the last of them with the
/// format's extension added.
pub open spec fn export_file_spec(subdir: Seq<char>, rel: Seq<char>, ext: Seq<char>) -> Seq<Seq<char>> {
    let c = seq![subdir] + safe_components(rel);
    c.drop_last().push(c.last() + "."@ + ext)
}

/// The path components, below the export folder, of the `ext` file exported
/// for script `rel_file` into the format's folder `subdir`.
pub fn export_file_components(subdir: &str, rel_file: &str, ext: &str) -> (r: Vec<String>)
    ensures
        string_views(r@) == export_file_spec(subdir@, rel_file@, ext@),
{
    let mut out: Vec<String> = Vec::new();
    out.push(subdir.to_string());
    let rest = safe_path_components(rel_file);
    let mut i: usize = 0;
    while i < rest.len()
        invariant
            i <= rest.len(),
            string_views(out@) == seq![subdir@] + string_views(rest@).take(i as int),
        decreases rest.len() - i,
    {
        let ghost before = string_views(out@);
        out.push(rest[i].clone());
        assert(string_views(out@) =~= before.push(rest@[i as int]@));
        assert(string_views(rest@).take(i + 1) =~= string_views(rest@).take(i as int).push(rest@[i as int]@));
        assert(string_views(out@) =~= seq![subdir@] + string_views(rest@).take(i + 1));
        i = i + 1;
    }
    assert(string_views(rest@).take(i as int) =~= string_views(rest@));
    let ghost all = string_views(out@);
    let last = out.pop().unwrap();
    let mut leaf = chars_of(last.as_str());
    extend_str(&mut leaf, ".");
    extend_str(&mut leaf, ext);
    out.push(string_of(&leaf));
    assert(string_views(out@) =~= all.drop_last().push(all.last() + "."@ + ext@));
    out
}

// ---------------------------------------------------------------------------
// Distribution export
// ---------------------------------------------------------------------------

/// There is room for a full copy: the free space covers the size plus a
/// twentieth (the sum saturating at the largest value).
pub open spec fn room_for_copy(need: u64, avail: u64) -> bool {
    let margin = need + need / 20;
    avail as int >= if margin > u64::MAX { u64::MAX as int } else { margin }
}

/// Whether a full copy of `need` bytes fits in `avail` free bytes, with a
/// twentieth kept in reserve.
pub fn has_room_for_copy(need: u64, avail: u64) -> (b: bool)
    ensures
        b == room_for_copy(need, avail),
{
    let margin = need.saturating_add(need / 20);
    !(avail < margin)
}

/// The README that goes with a mod-only export.
pub open spec fn mod_readme_text(target: Seq<char>) -> Seq<char> {
    "RenForge translation ("@ + target + ")\r\n\r\n"@ + MOD_README_BODY@
}

pub const MOD_README_BODY: &'static str = "Contents: translation files (overlay), not the full game.\r\n\r\nInstallation:\r\n1. Copy the game/ folder from this archive into the game directory, replacing/merging.\r\n2. Launch the game - the translation is applied automatically.\r\n\r\nCompatibility: the translation is built for a specific game version. Other versions\r\nmay show mismatches. If the version does not match, use the \"Full game\" export.\r\n\r\nRenForge\r\n";

/// The README of a mod-only export, naming the target language.
pub fn mod_readme(target: &str) -> (r: String)
    ensures
        r@ == mod_readme_text(target@),
{
    let mut v = chars_of("RenForge translation (");
    extend_str(&mut v, target);
    extend_str(&mut v, ")\r\n\r\n");
    extend_str(&mut v, MOD_README_BODY);
    string_of(&v)
}

// ---------------------------------------------------------------------------
// Starting an export
// ---------------------------------------------------------------------------

/// What a distribution export copies: the whole game, or only the mod's files.
#[derive(PartialEq, Eq, Structural)]
pub enum ExportMode {
    Full,
    Mod,
}

/// How an export starts: report that the folder is taken, or go on (after
/// clearing the folder when asked) with the mode or the error for an unknown
/// one.
pub enum ExportStart {
    Exists,
    Run { clear_first: bool, mode: Result<ExportMode, String> },
}

/// The error for an export mode that is neither `full` nor `mod`.
pub open spec fn unknown_mode_error(mode: Seq<char>) -> Seq<char> {
    "неизвестный режим экспорта: "@ + mode
}

/// How an export into a folder starts: a non-empty folder is reported unless
/// overwriting is asked, in which case it is cleared first; then the mode
/// decides (`full`, `mod`, or an error).
pub fn export_start(folder_non_empty: bool, overwrite: bool, mode: &str) -> (r: ExportStart)
    ensures
        folder_non_empty && !overwrite <==> r is Exists,
        r matches ExportStart::Run { clear_first, .. } ==> clear_first == folder_non_empty,
        r matches ExportStart::Run { mode: m, .. } ==> (mode@ == "full"@ ==> m == Ok::<ExportMode, String>(ExportMode::Full)),
        r matches ExportStart::Run { mode: m, .. } ==> (mode@ == "mod"@ ==> m == Ok::<ExportMode, String>(ExportMode::Mod)),
        r matches ExportStart::Run { mode: m, .. } ==> (mode@ != "full"@ && mode@ != "mod"@ ==> (m matches Err(e) && e@ == unknown_mode_error(mode@))),
{
    proof {
        reveal_strlit("full");
        reveal_strlit("mod");
        assert("mod"@.len() == 3 && "full"@.len() == 4);
    }
    if folder_non_empty && !overwrite {
        return ExportStart::Exists;
    }
    let m = if str_eq(mode, "full") {
        Ok(ExportMode::Full)
    } else if str_eq(mode, "mod") {
        Ok(ExportMode::Mod)
    } else {
        let mut v = chars_of("неизвестный режим экспорта: ");
        extend_str(&mut v, mode);
        Err(string_of(&v))
    };
    ExportStart::Run { clear_first: folder_non_empty, mode: m }
}

} // verus!
