//! The text-extraction engine: the value tokenizer, the value normalizer,
//! the replace-call rewriter, and the schema and row extractors.

use vstd::prelude::*;
use crate::text::{
    alnum_char, contains_chars, contains_seq, copy_range, first_word, first_word_chars,
    has_prefix, is_alnum_char, join_trimmed, join_trimmed_chars, lines_chars, pieces_view,
    replace_pair, replace_pair_chars, spec_lines, split_chars, split_on, starts_with_chars,
    string_from_chars, to_chars, trim_chars, trimmed,
};
use crate::types::{rows_view, strs_view, Table, ExtractError};

verus! {

/// One step of the value scan: position `i` of `s`, whether the scan is
/// inside quotes, the active quote character, the value accumulated so
/// far, and the values already emitted. Each emitted value is trimmed.
pub open spec fn tok_from(
    s: Seq<char>,
    i: int,
    in_q: bool,
    qc: char,
    cur: Seq<char>,
    acc: Seq<Seq<char>>,
) -> Seq<Seq<char>>
    decreases s.len() - i,
{
    if i < 0 || i >= s.len() {
        if cur.len() > 0 {
            acc.push(trimmed(cur))
        } else {
            acc
        }
    } else {
        let c = s[i];
        if !in_q {
            if c == '\'' || c == '"' {
                tok_from(s, i + 1, true, c, cur.push(c), acc)
            } else if c == ',' {
                tok_from(s, i + 1, false, ' ', Seq::empty(), acc.push(trimmed(cur)))
            } else {
                tok_from(s, i + 1, false, qc, cur.push(c), acc)
            }
        } else {
            if c == qc {
                if i + 1 < s.len() && s[i + 1] == qc {
                    tok_from(s, i + 2, true, qc, cur.push(c).push(c), acc)
                } else {
                    tok_from(s, i + 1, false, ' ', cur.push(c), acc)
                }
            } else {
                tok_from(s, i + 1, true, qc, cur.push(c), acc)
            }
        }
    }
}

/// The raw value substrings of a `VALUES(...)` payload: split on top-level
/// commas only, quotes kept, each value trimmed, a doubled quote inside a
/// quoted section never closing it, and a trailing accumulated value
/// emitted only when non-empty.
pub open spec fn spec_tokenize(s: Seq<char>) -> Seq<Seq<char>> {
    tok_from(s, 0, false, ' ', Seq::empty(), Seq::empty())
}

/// Splits a payload into raw value substrings at top-level commas.
fn tokenize_chars(v: &Vec<char>) -> (r: Vec<Vec<char>>)
    ensures
        pieces_view(r@) == spec_tokenize(v@),
{
    let mut acc: Vec<Vec<char>> = Vec::new();
    let mut cur: Vec<char> = Vec::new();
    let mut in_q = false;
    let mut qc: char = ' ';
    let mut i: usize = 0;
    proof {
        assert(pieces_view(acc@) =~= Seq::<Seq<char>>::empty());
    }
    while i < v.len()
        invariant
            i <= v@.len(),
            spec_tokenize(v@) == tok_from(v@, i as int, in_q, qc, cur@, pieces_view(acc@)),
        decreases v@.len() - i,
    {
        let c = v[i];
        if !in_q {
            if c == '\'' || c == '"' {
                in_q = true;
                qc = c;
                cur.push(c);
                i = i + 1;
            } else if c == ',' {
                let t = trim_chars(&cur);
                let ghost acc0 = acc@;
                acc.push(t);
                proof {
                    acc0.lemma_push_map_commute(|x: Vec<char>| x@, acc@.last());
                    assert(pieces_view(acc@) =~= pieces_view(acc0).push(trimmed(cur@)));
                }
                cur = Vec::new();
                qc = ' ';
                i = i + 1;
            } else {
                cur.push(c);
                i = i + 1;
            }
        } else {
            if c == qc {
                if i + 1 < v.len() && v[i + 1] == qc {
                    cur.push(c);
                    cur.push(c);
                    i = i + 2;
                } else {
                    in_q = false;
                    qc = ' ';
                    cur.push(c);
                    i = i + 1;
                }
            } else {
                cur.push(c);
                i = i + 1;
            }
        }
    }
    if cur.len() > 0 {
        let t = trim_chars(&cur);
        let ghost acc0 = acc@;
        acc.push(t);
        proof {
            acc0.lemma_push_map_commute(|x: Vec<char>| x@, acc@.last());
            assert(pieces_view(acc@) =~= pieces_view(acc0).push(trimmed(cur@)));
        }
    }
    acc
}

/// Turns character-vector pieces into strings.
fn strings_of_pieces(ps: &Vec<Vec<char>>) -> (r: Vec<String>)
    ensures
        strs_view(r@) == pieces_view(ps@),
{
    let mut r: Vec<String> = Vec::new();
    let mut i: usize = 0;
    proof {
        assert(strs_view(r@) =~= Seq::<Seq<char>>::empty());
        assert(pieces_view(ps@).subrange(0, 0) =~= Seq::<Seq<char>>::empty());
    }
    while i < ps.len()
        invariant
            i <= ps@.len(),
            strs_view(r@) == pieces_view(ps@).subrange(0, i as int),
        decreases ps@.len() - i,
    {
        let s = string_from_chars(&ps[i]);
        let ghost r0 = r@;
        r.push(s);
        proof {
            r0.lemma_push_map_commute(|x: String| x@, r@.last());
            assert(ps@[i as int]@ == pieces_view(ps@)[i as int]);
            assert(strs_view(r@) =~= pieces_view(ps@).subrange(0, i + 1 as int));
        }
        i = i + 1;
    }
    proof {
        assert(pieces_view(ps@).subrange(0, ps@.len() as int) =~= pieces_view(ps@));
    }
    r
}

/// Splits the literal text inside one `VALUES(...)` clause into raw value
/// substrings, honoring single and double quote nesting and doubled-quote
/// escaping. Values are trimmed but keep their quotes.
pub fn tokenize_values(values_str: &str) -> (r: Vec<String>)
    ensures
        strs_view(r@) == spec_tokenize(values_str@),
{
    let v = to_chars(values_str);
    let toks = tokenize_chars(&v);
    strings_of_pieces(&toks)
}

/// Whether the value is fully wrapped in a matching pair of single or
/// double quotes.
pub open spec fn spec_wrapped(v: Seq<char>) -> bool {
    v.len() >= 2 && ((v[0] == '\'' && v[v.len() - 1] == '\'') || (v[0] == '"' && v[v.len() - 1]
        == '"'))
}

/// The cleaned form of one tokenized value: trimmed; then, if fully
/// wrapped in matching quotes, the outer pair stripped and doubled inner
/// quotes of both kinds collapsed; otherwise unchanged.
pub open spec fn spec_clean(val: Seq<char>) -> Seq<char> {
    let t = trimmed(val);
    if spec_wrapped(t) {
        replace_pair(replace_pair(t.subrange(1, t.len() - 1), '\'', '\'', '\''), '"', '"', '"')
    } else {
        t
    }
}

/// Cleans one tokenized value held as characters.
fn clean_chars(v: &Vec<char>) -> (r: Vec<char>)
    ensures
        r@ == spec_clean(v@),
{
    let t = trim_chars(v);
    let n = t.len();
    if n >= 2 && ((t[0] == '\'' && t[n - 1] == '\'') || (t[0] == '"' && t[n - 1] == '"')) {
        let inner = copy_range(&t, 1, n - 1);
        let once = replace_pair_chars(&inner, '\'', '\'', '\'');
        replace_pair_chars(&once, '"', '"', '"')
    } else {
        t
    }
}

/// Strips surrounding quotes from a tokenized value and unescapes doubled
/// quotes; unquoted literals pass through unchanged.
pub fn clean_value(val: String) -> (r: String)
    ensures
        r@ == spec_clean(val@),
{
    let v = to_chars(val.as_str());
    let cleaned = clean_chars(&v);
    string_from_chars(&cleaned)
}

/// The values of one payload: tokenized, then each value cleaned.
pub open spec fn spec_parse_values(s: Seq<char>) -> Seq<Seq<char>> {
    spec_tokenize(s).map_values(|t: Seq<char>| spec_clean(t))
}

/// Parses the comma-separated values of one `VALUES(...)` payload,
/// returning them already unquoted and unescaped.
pub fn parse_values(values_str: &str) -> (r: Vec<String>)
    ensures
        strs_view(r@) == spec_parse_values(values_str@),
{
    let v = to_chars(values_str);
    let toks = tokenize_chars(&v);
    let mut r: Vec<String> = Vec::new();
    let mut i: usize = 0;
    proof {
        assert(strs_view(r@) =~= Seq::<Seq<char>>::empty());
        assert(spec_parse_values(values_str@).subrange(0, 0) =~= Seq::<Seq<char>>::empty());
    }
    while i < toks.len()
        invariant
            i <= toks@.len(),
            pieces_view(toks@) == spec_tokenize(v@),
            v@ == values_str@,
            strs_view(r@) == spec_parse_values(values_str@).subrange(0, i as int),
        decreases toks@.len() - i,
    {
        let cleaned = clean_chars(&toks[i]);
        let s = string_from_chars(&cleaned);
        let ghost r0 = r@;
        r.push(s);
        proof {
            r0.lemma_push_map_commute(|x: String| x@, r@.last());
            assert(toks@[i as int]@ == pieces_view(toks@)[i as int]);
            assert(spec_parse_values(values_str@)[i as int] == spec_clean(
                spec_tokenize(values_str@)[i as int],
            ));
            assert(strs_view(r@) =~= spec_parse_values(values_str@).subrange(0, i + 1 as int));
        }
        i = i + 1;
    }
    proof {
        assert(spec_parse_values(values_str@).subrange(
            0,
            spec_parse_values(values_str@).len() as int,
        ) =~= spec_parse_values(values_str@));
    }
    r
}

/// What the regex rewrite of `replace('<text>', ...)` calls returns for a
/// payload: the result depends on the payload text alone.
pub uninterp spec fn replaced_calls(s: Seq<char>) -> Seq<char>;

/// The unescaping applied to a captured first argument of a
/// `replace(...)` call: `\\'` becomes `'`, then `\\n` becomes a newline.
pub open spec fn spec_unescape_arg(s: Seq<char>) -> Seq<char> {
    replace_pair(replace_pair(s, '\\', '\'', '\''), '\\', 'n', '\n')
}

/// Rebuilds a captured `replace(...)` first argument as a single-quoted
/// literal with its escapes resolved.
fn rewrite_capture(inner: &str) -> (r: String)
    ensures
        r@ == seq!['\''] + spec_unescape_arg(inner@) + seq!['\''],
{
    let v = to_chars(inner);
    let once = replace_pair_chars(&v, '\\', '\'', '\'');
    let both = replace_pair_chars(&once, '\\', 'n', '\n');
    let mut out: Vec<char> = Vec::new();
    out.push('\'');
    crate::text::push_all(&mut out, &both);
    out.push('\'');
    proof {
        assert(out@ =~= seq!['\''] + spec_unescape_arg(inner@) + seq!['\'']);
    }
    string_from_chars(&out)
}

/// Relies on regex replace_all with the fixed pattern
/// `(?s)replace\('(.*?)',.*?\)`: every match is replaced by the rewritten
/// first capture, and the result depends on the payload text alone. The
/// fixed pattern always compiles.
#[verifier::external_body]
fn rewrite_replace_calls(s: &str) -> (r: String)
    ensures
        r@ == replaced_calls(s@),
{
    let re = regex::Regex::new(r"(?s)replace\('(.*?)',.*?\)").unwrap();
    re.replace_all(s, |caps: &regex::Captures| {
        rewrite_capture(caps.get(1).map_or("", |m| m.as_str()))
    }).to_string()
}

/// Whether the payload holds a `replace(` call at all.
pub open spec fn contains_replace_call(s: Seq<char>) -> bool {
    contains_seq(s, "replace("@)
}

/// The rewriter's result: payloads without a `replace(` substring pass
/// through unchanged; all others have their `replace(...)` calls
/// collapsed to their rewritten first argument.
pub open spec fn spec_rewrite(s: Seq<char>) -> Seq<char> {
    if contains_replace_call(s) {
        replaced_calls(s)
    } else {
        s
    }
}

/// Collapses each `replace('<text>', ...)` call in a values payload down
/// to a single-quoted literal built from its first argument.
pub fn handle_replace_function(values_str: &str) -> (r: String)
    ensures
        r@ == spec_rewrite(values_str@),
{
    let v = to_chars(values_str);
    if contains_chars(&v, "replace(") {
        rewrite_replace_calls(values_str)
    } else {
        string_from_chars(&v)
    }
}

/// Rewriting is idempotent on already-rewritten text: a payload that no
/// longer holds a `replace(` substring passes a second rewriting pass
/// unchanged.
pub proof fn lemma_rewrite_idempotent(s: Seq<char>)
    requires
        !contains_replace_call(spec_rewrite(s)),
    ensures
        spec_rewrite(spec_rewrite(s)) == spec_rewrite(s),
{
}

/// Whether a comma-delimited segment of a column list is kept: non-empty
/// once trimmed and not a FOREIGN KEY or PRIMARY KEY constraint clause.
pub open spec fn keep_part(part: Seq<char>) -> bool {
    let t = trimmed(part);
    t.len() > 0 && !has_prefix(t, "FOREIGN KEY"@) && !has_prefix(t, "PRIMARY KEY"@)
}

/// Whether a candidate column name is accepted: non-empty and made only
/// of alphanumeric characters and underscores.
pub open spec fn valid_column_name(w: Seq<char>) -> bool {
    w.len() > 0 && forall|i: int| 0 <= i < w.len() ==> alnum_char(w[i]) || w[i] == '_'
}

/// The column names accepted from the comma-delimited segments of a
/// CREATE TABLE body: the first word of each kept segment, when it is a
/// valid column name, in order.
pub open spec fn cols_of_parts(parts: Seq<Seq<char>>) -> Seq<Seq<char>>
    decreases parts.len(),
{
    if parts.len() == 0 {
        Seq::empty()
    } else {
        let rest = cols_of_parts(parts.drop_last());
        let w = first_word(trimmed(parts.last()));
        if keep_part(parts.last()) && valid_column_name(w) {
            rest.push(w)
        } else {
            rest
        }
    }
}

/// The columns of one CREATE TABLE body: lines trimmed and joined with
/// single spaces, split on commas, and each segment's first word accepted
/// when it is a valid column name.
pub open spec fn spec_table_columns(s: Seq<char>) -> Seq<Seq<char>> {
    cols_of_parts(split_on(join_trimmed(spec_lines(s)), ','))
}

/// Decides whether a candidate column name is accepted.
fn is_valid_column(w: &Vec<char>) -> (r: bool)
    ensures
        r == valid_column_name(w@),
{
    if w.len() == 0 {
        return false;
    }
    let mut i: usize = 0;
    while i < w.len()
        invariant
            i <= w@.len(),
            forall|k: int| 0 <= k < i ==> alnum_char(w@[k]) || w@[k] == '_',
        decreases w@.len() - i,
    {
        let c = w[i];
        if !is_alnum_char(c) && c != '_' {
            return false;
        }
        i = i + 1;
    }
    true
}

/// Parses column definitions from the body of a CREATE TABLE statement,
/// keeping the first word of each comma-delimited definition that is a
/// valid column name and skipping constraint clauses.
pub fn parse_table_columns(columns_text: &str) -> (r: Vec<String>)
    ensures
        strs_view(r@) == spec_table_columns(columns_text@),
{
    let v = to_chars(columns_text);
    let ls = lines_chars(&v);
    let joined = join_trimmed_chars(&ls);
    let parts = split_chars(&joined, ',');
    let ghost pv = pieces_view(parts@);
    let mut cols: Vec<String> = Vec::new();
    let mut i: usize = 0;
    proof {
        assert(strs_view(cols@) =~= Seq::<Seq<char>>::empty());
        assert(pv.subrange(0, 0) =~= Seq::<Seq<char>>::empty());
        assert(cols_of_parts(pv.subrange(0, 0)) =~= Seq::<Seq<char>>::empty());
    }
    while i < parts.len()
        invariant
            i <= parts@.len(),
            pv == pieces_view(parts@),
            strs_view(cols@) == cols_of_parts(pv.subrange(0, i as int)),
        decreases parts@.len() - i,
    {
        proof {
            assert(parts@[i as int]@ == pv[i as int]);
            assert(pv.subrange(0, i + 1 as int).drop_last() =~= pv.subrange(0, i as int));
            assert(pv.subrange(0, i + 1 as int).last() == pv[i as int]);
        }
        let t = trim_chars(&parts[i]);
        if t.len() > 0 && !starts_with_chars(&t, "FOREIGN KEY") && !starts_with_chars(
            &t,
            "PRIMARY KEY",
        ) {
            let w = first_word_chars(&t);
            if is_valid_column(&w) {
                let name = string_from_chars(&w);
                let ghost cols0 = cols@;
                cols.push(name);
                proof {
                    cols0.lemma_push_map_commute(|x: String| x@, cols@.last());
                    assert(strs_view(cols@) =~= cols_of_parts(pv.subrange(0, i + 1 as int)));
                }
            }
        }
        i = i + 1;
    }
    proof {
        assert(pv.subrange(0, parts@.len() as int) =~= pv);
    }
    cols
}

/// What the CREATE TABLE matcher returns for a dump text: each match's
/// name and body captures in match order, or nothing if the fixed pattern
/// fails to compile. The result depends on the dump text alone.
pub uninterp spec fn create_table_captures(s: Seq<char>) -> Option<Seq<(Seq<char>, Seq<char>)>>;

/// The view of captured (name, body) string pairs.
pub open spec fn caps_view(v: Seq<(String, String)>) -> Seq<(Seq<char>, Seq<char>)> {
    v.map_values(|p: (String, String)| (p.0@, p.1@))
}

/// Relies on regex captures_iter with the fixed pattern
/// `(?i)(?s)CREATE TABLE\s+(\w+)\s*\((.*?)\)(?:\s|;)`: yields the two
/// capture groups of every match, in order.
#[verifier::external_body]
fn create_table_matches(content: &str) -> (r: Option<Vec<(String, String)>>)
    ensures
        r is Some <==> create_table_captures(content@) is Some,
        r matches Some(v) ==> caps_view(v@) == create_table_captures(content@)->0,
{
    let re = match regex::Regex::new(r"(?i)(?s)CREATE TABLE\s+(\w+)\s*\((.*?)\)(?:\s|;)") {
        Ok(re) => re,
        Err(_) => {
            return None;
        },
    };
    Some(re.captures_iter(content).map(|c| (
        c.get(1).map_or("", |m| m.as_str()).to_string(),
        c.get(2).map_or("", |m| m.as_str()).to_string(),
    )).collect())
}

/// The tables recovered from the captured CREATE TABLE matches: one per
/// match whose body yields at least one column.
pub open spec fn tables_of(caps: Seq<(Seq<char>, Seq<char>)>) -> Seq<(Seq<char>, Seq<Seq<char>>)>
    decreases caps.len(),
{
    if caps.len() == 0 {
        Seq::empty()
    } else {
        let rest = tables_of(caps.drop_last());
        let cols = spec_table_columns(caps.last().1);
        if cols.len() > 0 {
            rest.push((caps.last().0, cols))
        } else {
            rest
        }
    }
}

/// The view of a table: its name and column names as character sequences.
pub open spec fn table_view(t: Table) -> (Seq<char>, Seq<Seq<char>>) {
    (t.name@, strs_view(t.columns@))
}

/// The view of a sequence of tables.
pub open spec fn tables_view(ts: Seq<Table>) -> Seq<(Seq<char>, Seq<Seq<char>>)> {
    ts.map_values(|t: Table| table_view(t))
}

/// Scans the dump text for CREATE TABLE blocks, yielding a table name and
/// an ordered column list per declared table. A match whose body yields no
/// valid column is discarded, so every returned table has a non-empty
/// column list. Fails only if the internal matching pattern is invalid.
pub fn parse_sql_text(content: &str) -> (r: Result<Vec<Table>, ExtractError>)
    ensures
        create_table_captures(content@) matches Some(caps) ==> (r matches Ok(ts) && tables_view(
            ts@,
        ) == tables_of(caps)),
        create_table_captures(content@) is None ==> (r matches Err(e) && e
            == ExtractError::PatternInvalid),
        r matches Ok(ts) ==> forall|j: int| 0 <= j < ts@.len() ==> #[trigger] ts@[j].columns@.len()
            > 0,
{
    let m = match create_table_matches(content) {
        Some(m) => m,
        None => {
            return Err(ExtractError::PatternInvalid);
        },
    };
    let ghost caps = caps_view(m@);
    let mut tables: Vec<Table> = Vec::new();
    let mut i: usize = 0;
    proof {
        assert(tables_view(tables@) =~= Seq::<(Seq<char>, Seq<Seq<char>>)>::empty());
        assert(caps.subrange(0, 0) =~= Seq::<(Seq<char>, Seq<char>)>::empty());
        assert(tables_of(caps.subrange(0, 0)) =~= Seq::<(Seq<char>, Seq<Seq<char>>)>::empty());
    }
    while i < m.len()
        invariant
            i <= m@.len(),
            caps == caps_view(m@),
            tables_view(tables@) == tables_of(caps.subrange(0, i as int)),
            forall|j: int| 0 <= j < tables@.len() ==> #[trigger] tables@[j].columns@.len() > 0,
        decreases m@.len() - i,
    {
        proof {
            assert(caps[i as int] == (m@[i as int].0@, m@[i as int].1@));
            assert(caps.subrange(0, i + 1 as int).drop_last() =~= caps.subrange(0, i as int));
            assert(caps.subrange(0, i + 1 as int).last() == caps[i as int]);
        }
        let name = m[i].0.clone();
        let columns = parse_table_columns(m[i].1.as_str());
        if columns.len() > 0 {
            let ghost tables0 = tables@;
            let t = Table { name, columns };
            tables.push(t);
            proof {
                tables0.lemma_push_map_commute(|x: Table| table_view(x), tables@.last());
                assert(tables_view(tables@) =~= tables_of(caps.subrange(0, i + 1 as int)));
            }
        }
        i = i + 1;
    }
    proof {
        assert(caps.subrange(0, m@.len() as int) =~= caps);
    }
    Ok(tables)
}

/// What the double-quoted INSERT matcher returns: the payload capture of
/// every `INSERT INTO "<name>" VALUES(...);` match, in order, or nothing
/// if the pattern fails to compile. Depends on the text and name alone.
pub uninterp spec fn insert_payloads_dquoted(s: Seq<char>, name: Seq<char>) -> Option<
    Seq<Seq<char>>,
>;

/// What the bare-name INSERT matcher returns: the payload capture of
/// every `INSERT INTO <name> VALUES(...);` match, in order, or nothing if
/// the pattern fails to compile. Depends on the text and name alone.
pub uninterp spec fn insert_payloads_bare(s: Seq<char>, name: Seq<char>) -> Option<Seq<Seq<char>>>;

/// What the back-quoted INSERT matcher returns: the payload capture of
/// every ``INSERT INTO `<name>` VALUES(...);`` match, in order, or
/// nothing if the pattern fails to compile. Depends on the text and name
/// alone.
pub uninterp spec fn insert_payloads_bquoted(s: Seq<char>, name: Seq<char>) -> Option<
    Seq<Seq<char>>,
>;

/// Relies on regex captures_iter with the pattern
/// `(?s)INSERT INTO "<name>" VALUES\((.*?)\);`, the table name escaped as
/// a literal: yields every match's payload capture in order.
#[verifier::external_body]
fn insert_matches_dquoted(content: &str, table_name: &str) -> (r: Option<Vec<String>>)
    ensures
        r is Some <==> insert_payloads_dquoted(content@, table_name@) is Some,
        r matches Some(v) ==> strs_view(v@) == insert_payloads_dquoted(content@, table_name@)->0,
{
    let pat = format!(r#"(?s)INSERT INTO "{}" VALUES\((.*?)\);"#, regex::escape(table_name));
    let re = match regex::Regex::new(&pat) {
        Ok(re) => re,
        Err(_) => {
            return None;
        },
    };
    Some(re.captures_iter(content).map(|c| c.get(1).map_or("", |m| m.as_str()).to_string()).collect())
}

/// Relies on regex captures_iter with the pattern
/// `(?s)INSERT INTO <name> VALUES\((.*?)\);`, the table name escaped as a
/// literal: yields every match's payload capture in order.
#[verifier::external_body]
fn insert_matches_bare(content: &str, table_name: &str) -> (r: Option<Vec<String>>)
    ensures
        r is Some <==> insert_payloads_bare(content@, table_name@) is Some,
        r matches Some(v) ==> strs_view(v@) == insert_payloads_bare(content@, table_name@)->0,
{
    let pat = format!(r"(?s)INSERT INTO {} VALUES\((.*?)\);", regex::escape(table_name));
    let re = match regex::Regex::new(&pat) {
        Ok(re) => re,
        Err(_) => {
            return None;
        },
    };
    Some(re.captures_iter(content).map(|c| c.get(1).map_or("", |m| m.as_str()).to_string()).collect())
}

/// Relies on regex captures_iter with the pattern
/// ``(?s)INSERT INTO `<name>` VALUES\((.*?)\);``, the table name escaped
/// as a literal: yields every match's payload capture in order.
#[verifier::external_body]
fn insert_matches_bquoted(content: &str, table_name: &str) -> (r: Option<Vec<String>>)
    ensures
        r is Some <==> insert_payloads_bquoted(content@, table_name@) is Some,
        r matches Some(v) ==> strs_view(v@) == insert_payloads_bquoted(content@, table_name@)->0,
{
    let pat = format!(r"(?s)INSERT INTO `{}` VALUES\((.*?)\);", regex::escape(table_name));
    let re = match regex::Regex::new(&pat) {
        Ok(re) => re,
        Err(_) => {
            return None;
        },
    };
    Some(re.captures_iter(content).map(|c| c.get(1).map_or("", |m| m.as_str()).to_string()).collect())
}

/// One extracted row: the payload rewritten, tokenized, and each value
/// cleaned.
pub open spec fn spec_row(payload: Seq<char>) -> Seq<Seq<char>> {
    spec_parse_values(spec_rewrite(payload))
}

/// The rows extracted from a sequence of payloads.
pub open spec fn rows_of(payloads: Seq<Seq<char>>) -> Seq<Seq<Seq<char>>> {
    payloads.map_values(|p: Seq<char>| spec_row(p))
}

/// The rows of a table in the dump: the first quote style (double-quoted,
/// bare, back-quoted, in that order) whose matcher yields any payload
/// wins; a pattern that fails to compile is a hard error.
pub open spec fn spec_extract_rows(s: Seq<char>, name: Seq<char>) -> Result<
    Seq<Seq<Seq<char>>>,
    ExtractError,
> {
    match insert_payloads_dquoted(s, name) {
        Option::None => Result::Err(ExtractError::PatternInvalid),
        Option::Some(ps) => if ps.len() > 0 {
            Result::Ok(rows_of(ps))
        } else {
            match insert_payloads_bare(s, name) {
                Option::None => Result::Err(ExtractError::PatternInvalid),
                Option::Some(ps2) => if ps2.len() > 0 {
                    Result::Ok(rows_of(ps2))
                } else {
                    match insert_payloads_bquoted(s, name) {
                        Option::None => Result::Err(ExtractError::PatternInvalid),
                        Option::Some(ps3) => Result::Ok(rows_of(ps3)),
                    }
                },
            }
        },
    }
}

/// Extracts the rows of the captured payloads.
fn rows_from_payloads(ps: &Vec<String>) -> (r: Vec<Vec<String>>)
    ensures
        rows_view(r@) == rows_of(strs_view(ps@)),
{
    let ghost goal = rows_of(strs_view(ps@));
    let mut r: Vec<Vec<String>> = Vec::new();
    let mut i: usize = 0;
    proof {
        assert(rows_view(r@) =~= Seq::<Seq<Seq<char>>>::empty());
        assert(goal.subrange(0, 0) =~= Seq::<Seq<Seq<char>>>::empty());
    }
    while i < ps.len()
        invariant
            i <= ps@.len(),
            goal == rows_of(strs_view(ps@)),
            rows_view(r@) == goal.subrange(0, i as int),
        decreases ps@.len() - i,
    {
        let rewritten = handle_replace_function(ps[i].as_str());
        let row = parse_values(rewritten.as_str());
        let ghost r0 = r@;
        r.push(row);
        proof {
            r0.lemma_push_map_commute(|x: Vec<String>| strs_view(x@), r@.last());
            assert(strs_view(ps@)[i as int] == ps@[i as int]@);
            assert(goal[i as int] == spec_row(ps@[i as int]@));
            assert(rows_view(r@) =~= goal.subrange(0, i + 1 as int));
        }
        i = i + 1;
    }
    proof {
        assert(goal.subrange(0, goal.len() as int) =~= goal);
    }
    r
}

/// Extracts the rows declared for `table_name` in the dump text, their
/// values already unquoted and unescaped. The three quote styles are
/// tried in order and the first that yields any match wins; a dump with
/// no matching INSERT statement yields an empty result, not an error.
pub fn extract_insert_values(content: &str, table_name: &str) -> (r: Result<
    Vec<Vec<String>>,
    ExtractError,
>)
    ensures
        spec_extract_rows(content@, table_name@) matches Ok(rows) ==> (r matches Ok(v)
            && rows_view(v@) == rows),
        spec_extract_rows(content@, table_name@) matches Err(e) ==> (r matches Err(e2) && e2 == e),
{
    let ps = match insert_matches_dquoted(content, table_name) {
        Some(ps) => ps,
        None => {
            return Err(ExtractError::PatternInvalid);
        },
    };
    if ps.len() > 0 {
        return Ok(rows_from_payloads(&ps));
    }
    let ps2 = match insert_matches_bare(content, table_name) {
        Some(ps2) => ps2,
        None => {
            return Err(ExtractError::PatternInvalid);
        },
    };
    if ps2.len() > 0 {
        return Ok(rows_from_payloads(&ps2));
    }
    let ps3 = match insert_matches_bquoted(content, table_name) {
        Some(ps3) => ps3,
        None => {
            return Err(ExtractError::PatternInvalid);
        },
    };
    Ok(rows_from_payloads(&ps3))
}

} // verus!
