//! A parser for the two statements that name a table and its columns:
//! `SELECT .. FROM ..` and `CREATE TABLE .. ( .. )`.
//!
//! Each parser takes the text to read and gives back what it found together
//! with the text that follows. The grammar is stated over positions in the
//! sequence of the input's characters; keywords are matched without regard
//! to the case of ASCII letters, names are runs of ASCII letters and digits,
//! and white space is made of spaces, tabs, carriage returns and line feeds.

use crate::chars::{chars_of, match_keyword, run_end, scan_run, starts_with_keyword, CharClass};
use vstd::prelude::*;
use vstd::string::StrSliceExecFns;

verus! {

/// What a parser missed at the place where it gave up.
#[derive(Debug, Clone, Copy, PartialEq, Eq, Structural)]
pub enum ParseError {
    /// A keyword of the statement.
    ExpectedKeyword,
    /// White space between two parts of the statement.
    ExpectedSpace,
    /// A name: a run of letters and digits.
    ExpectedName,
    /// The comma between two items of a list.
    ExpectedComma,
    /// The parenthesis that opens the list of columns.
    ExpectedOpenParen,
    /// The parenthesis that closes the list of columns.
    ExpectedCloseParen,
}

/// The texts that a sequence of string slices holds, slice by slice.
pub open spec fn texts(v: Seq<&str>) -> Seq<Seq<char>> {
    Seq::new(v.len(), |k: int| v[k]@)
}

/// The texts that a sequence of lists of string slices holds, list by list.
pub open spec fn text_lists(v: Seq<Vec<&str>>) -> Seq<Seq<Seq<char>>> {
    Seq::new(v.len(), |k: int| texts(v[k]@))
}

/// `head` put before the items of `tail`, whose end position stays.
pub open spec fn cons_tail<T>(head: Seq<T>, tail: (int, Seq<T>)) -> (int, Seq<T>) {
    (tail.0, head + tail.1)
}

/// Putting `head` and then `x` before a tail is putting before it `head`
/// with `x` at its end.
pub proof fn lemma_cons_tail_push<T>(head: Seq<T>, x: T, tail: (int, Seq<T>))
    ensures
        cons_tail(head, cons_tail(seq![x], tail)) == cons_tail(head.push(x), tail),
        cons_tail(Seq::<T>::empty(), tail) == tail,
        cons_tail(head, (tail.0, Seq::<T>::empty())) == (tail.0, head),
{
    assert(head + (seq![x] + tail.1) =~= head.push(x) + tail.1);
    assert(Seq::<T>::empty() + tail.1 =~= tail.1);
    assert(head + Seq::<T>::empty() =~= head);
}

/// White space, a comma, white space: the position after all three, and the
/// position of the comma.
pub open spec fn space_comma_at(s: Seq<char>, pos: int) -> Result<(int, int), ParseError> {
    let comma = run_end(s, pos, CharClass::Space);
    if 0 <= comma < s.len() && s[comma] == ',' {
        Ok((run_end(s, comma + 1, CharClass::Space), comma))
    } else {
        Err(ParseError::ExpectedComma)
    }
}

/// The names that follow a first name, each after white space: the position
/// after the last of them, and the names. White space that no name follows
/// is left unread.
pub open spec fn more_words_at(s: Seq<char>, pos: int) -> (int, Seq<Seq<char>>)
    decreases s.len() - pos,
{
    let start = run_end(s, pos, CharClass::Space);
    let end = run_end(s, start, CharClass::Alphanumeric);
    if 0 <= pos < start && start < end <= s.len() {
        cons_tail(seq![s.subrange(start, end)], more_words_at(s, end))
    } else {
        (pos, Seq::empty())
    }
}

/// Names separated by white space, none at all included: the position after
/// the last of them, and the names.
pub open spec fn words_at(s: Seq<char>, pos: int) -> (int, Seq<Seq<char>>) {
    let end = run_end(s, pos, CharClass::Alphanumeric);
    if pos < end {
        cons_tail(seq![s.subrange(pos, end)], more_words_at(s, end))
    } else {
        (pos, Seq::empty())
    }
}

/// The columns that follow a first column, each after a comma: the position
/// after the last of them, and the words of each.
pub open spec fn more_columns_at(s: Seq<char>, pos: int) -> (int, Seq<Seq<Seq<char>>>)
    decreases s.len() - pos,
{
    match space_comma_at(s, pos) {
        Err(_) => (pos, Seq::empty()),
        Ok((after, _)) => {
            let (end, words) = words_at(s, after);
            if 0 <= pos < end <= s.len() {
                cons_tail(seq![words], more_columns_at(s, end))
            } else {
                (pos, Seq::empty())
            }
        },
    }
}

/// The list of columns between parentheses: the position after the closing
/// parenthesis, and the words of each column. A column may have no word;
/// there is always a first column.
pub open spec fn columns_at(s: Seq<char>, pos: int) -> Result<
    (int, Seq<Seq<Seq<char>>>),
    ParseError,
> {
    if !(0 <= pos < s.len() && s[pos] == '(') {
        Err(ParseError::ExpectedOpenParen)
    } else {
        let first_at = run_end(s, pos + 1, CharClass::Space);
        let (first_end, first) = words_at(s, first_at);
        let (list_end, more) = more_columns_at(s, first_end);
        let close = run_end(s, list_end, CharClass::Space);
        if 0 <= close < s.len() && s[close] == ')' {
            Ok((close + 1, seq![first] + more))
        } else {
            Err(ParseError::ExpectedCloseParen)
        }
    }
}

/// The keyword that opens a `CREATE TABLE` statement, with its one space.
pub open spec fn create_table_keyword() -> Seq<char> {
    "create table"@
}

/// The keyword that opens a `SELECT` statement.
pub open spec fn select_keyword() -> Seq<char> {
    "select"@
}

/// The keyword before the table's name in a `SELECT` statement.
pub open spec fn from_keyword() -> Seq<char> {
    "from"@
}

/// The item that asks for the number of rows.
pub open spec fn count_keyword() -> Seq<char> {
    "count(*)"@
}

/// A `CREATE TABLE` statement: the keyword, white space, the table's name,
/// white space and the list of columns. Gives the position after the
/// statement, the table's name and the words of each column.
pub open spec fn create_table_at(s: Seq<char>, pos: int) -> Result<
    (int, (Seq<char>, Seq<Seq<Seq<char>>>)),
    ParseError,
> {
    if !starts_with_keyword(s.skip(pos), create_table_keyword()) {
        Err(ParseError::ExpectedKeyword)
    } else {
        let after_keyword = pos + create_table_keyword().len();
        let name_at = run_end(s, after_keyword, CharClass::Space);
        let name_end = run_end(s, name_at, CharClass::Alphanumeric);
        let columns_start = run_end(s, name_end, CharClass::Space);
        if name_at == after_keyword {
            Err(ParseError::ExpectedSpace)
        } else if name_end == name_at {
            Err(ParseError::ExpectedName)
        } else if columns_start == name_end {
            Err(ParseError::ExpectedSpace)
        } else {
            match columns_at(s, columns_start) {
                Err(e) => Err(e),
                Ok((end, columns)) => Ok((end, (s.subrange(name_at, name_end), columns))),
            }
        }
    }
}

/// One item of a selection: `count(*)`, or else a name. Gives the position
/// after the item, and the item.
pub open spec fn item_at(s: Seq<char>, pos: int) -> Result<(int, Seq<char>), ParseError> {
    let name_end = run_end(s, pos, CharClass::Alphanumeric);
    if starts_with_keyword(s.skip(pos), count_keyword()) {
        Ok((pos + count_keyword().len(), s.subrange(pos, pos + count_keyword().len())))
    } else if pos < name_end {
        Ok((name_end, s.subrange(pos, name_end)))
    } else {
        Err(ParseError::ExpectedName)
    }
}

/// The items that follow a first item, each after a comma: the position
/// after the last of them, and the items. A comma that no item follows is
/// left unread.
pub open spec fn more_items_at(s: Seq<char>, pos: int) -> (int, Seq<Seq<char>>)
    decreases s.len() - pos,
{
    match space_comma_at(s, pos) {
        Err(_) => (pos, Seq::empty()),
        Ok((after, _)) => match item_at(s, after) {
            Err(_) => (pos, Seq::empty()),
            Ok((end, item)) => if 0 <= pos < end <= s.len() {
                cons_tail(seq![item], more_items_at(s, end))
            } else {
                (pos, Seq::empty())
            },
        },
    }
}

/// One item or more, separated by commas: the position after the last, and
/// the items.
pub open spec fn selection_at(s: Seq<char>, pos: int) -> Result<
    (int, Seq<Seq<char>>),
    ParseError,
> {
    match item_at(s, pos) {
        Err(e) => Err(e),
        Ok((end, item)) => Ok(cons_tail(seq![item], more_items_at(s, end))),
    }
}

/// A `SELECT` statement: the keyword, white space, the selection, white
/// space, `FROM`, white space and the table's name. Gives the position after
/// the statement, the table's name and the selected items.
pub open spec fn select_at(s: Seq<char>, pos: int) -> Result<
    (int, (Seq<char>, Seq<Seq<char>>)),
    ParseError,
> {
    if !starts_with_keyword(s.skip(pos), select_keyword()) {
        Err(ParseError::ExpectedKeyword)
    } else {
        let after_keyword = pos + select_keyword().len();
        let selection_start = run_end(s, after_keyword, CharClass::Space);
        if selection_start == after_keyword {
            Err(ParseError::ExpectedSpace)
        } else {
            match selection_at(s, selection_start) {
                Err(e) => Err(e),
                Ok((selection_end, items)) => {
                    let from_at = run_end(s, selection_end, CharClass::Space);
                    let after_from = from_at + from_keyword().len();
                    let name_at = run_end(s, after_from, CharClass::Space);
                    let name_end = run_end(s, name_at, CharClass::Alphanumeric);
                    if from_at == selection_end {
                        Err(ParseError::ExpectedSpace)
                    } else if !starts_with_keyword(s.skip(from_at), from_keyword()) {
                        Err(ParseError::ExpectedKeyword)
                    } else if name_at == after_from {
                        Err(ParseError::ExpectedSpace)
                    } else if name_end == name_at {
                        Err(ParseError::ExpectedName)
                    } else {
                        Ok((name_end, (s.subrange(name_at, name_end), items)))
                    }
                },
            }
        }
    }
}

/// Reads white space, a comma and white space at `pos`.
fn parse_space_comma(cs: &[char], pos: usize) -> (r: Result<(usize, usize), ParseError>)
    requires
        pos <= cs@.len(),
    ensures
        match r {
            Ok((end, comma)) => space_comma_at(cs@, pos as int) == Ok::<(int, int), ParseError>(
                (end as int, comma as int),
            ) && pos <= comma < end <= cs@.len(),
            Err(e) => space_comma_at(cs@, pos as int) == Err::<(int, int), ParseError>(e),
        },
{
    let comma = scan_run(cs, pos, CharClass::Space);
    if comma < cs.len() && cs[comma] == ',' {
        Ok((scan_run(cs, comma + 1, CharClass::Space), comma))
    } else {
        Err(ParseError::ExpectedComma)
    }
}

/// Reads names separated by white space at `pos`.
fn parse_words<'a>(i: &'a str, cs: &[char], pos: usize) -> (r: (usize, Vec<&'a str>))
    requires
        cs@ == i@,
        pos <= cs@.len(),
    ensures
        words_at(i@, pos as int) == (r.0 as int, texts(r.1@)),
        pos <= r.0 <= cs@.len(),
        r.1@.len() == 0 ==> r.0 == pos,
{
    let mut words: Vec<&'a str> = Vec::new();
    let first_end = scan_run(cs, pos, CharClass::Alphanumeric);
    if first_end == pos {
        assert(texts(words@) =~= Seq::<Seq<char>>::empty());
        return (pos, words);
    }
    words.push(i.substring_char(pos, first_end));
    let mut cur = first_end;
    proof {
        assert(texts(words@) =~= seq![i@.subrange(pos as int, first_end as int)]);
    }
    loop
        invariant_except_break
            cs@ == i@,
            pos < cur <= cs@.len(),
            words@.len() > 0,
            words_at(i@, pos as int) == cons_tail(texts(words@), more_words_at(i@, cur as int)),
        ensures
            pos < cur <= cs@.len(),
            words@.len() > 0,
            words_at(i@, pos as int) == (cur as int, texts(words@)),
        decreases cs@.len() - cur,
    {
        let start = scan_run(cs, cur, CharClass::Space);
        let end = scan_run(cs, start, CharClass::Alphanumeric);
        if start == cur || end == start {
            proof {
                lemma_cons_tail_push(texts(words@), i@, more_words_at(i@, cur as int));
            }
            break ;
        }
        let word = i.substring_char(start, end);
        proof {
            assert(texts(words@.push(word)) =~= texts(words@).push(word@));
            lemma_cons_tail_push(texts(words@), word@, more_words_at(i@, end as int));
        }
        words.push(word);
        cur = end;
    }
    (cur, words)
}

/// Reads the list of columns between parentheses at `pos`.
fn parse_columns<'a>(i: &'a str, cs: &[char], pos: usize) -> (r: Result<
    (usize, Vec<Vec<&'a str>>),
    ParseError,
>)
    requires
        cs@ == i@,
        pos <= cs@.len(),
    ensures
        match r {
            Ok((end, columns)) => columns_at(i@, pos as int) == Ok::<
                (int, Seq<Seq<Seq<char>>>),
                ParseError,
            >((end as int, text_lists(columns@))) && pos < end <= cs@.len(),
            Err(e) => columns_at(i@, pos as int) == Err::<(int, Seq<Seq<Seq<char>>>), ParseError>(
                e,
            ),
        },
{
    if !(pos < cs.len() && cs[pos] == '(') {
        return Err(ParseError::ExpectedOpenParen);
    }
    let first_at = scan_run(cs, pos + 1, CharClass::Space);
    let (first_end, first) = parse_words(i, cs, first_at);
    let mut columns: Vec<Vec<&'a str>> = Vec::new();
    let ghost first_words = texts(first@);
    columns.push(first);
    let mut cur = first_end;
    proof {
        assert(text_lists(columns@) =~= seq![first_words]);
    }
    loop
        invariant_except_break
            cs@ == i@,
            pos < cur <= cs@.len(),
            seq![first_words] + more_columns_at(i@, first_end as int).1 == text_lists(columns@)
                + more_columns_at(i@, cur as int).1,
            more_columns_at(i@, first_end as int).0 == more_columns_at(i@, cur as int).0,
        ensures
            pos < cur <= cs@.len(),
            more_columns_at(i@, first_end as int).0 == cur,
            seq![first_words] + more_columns_at(i@, first_end as int).1 == text_lists(columns@),
        decreases cs@.len() - cur,
    {
        let after = match parse_space_comma(cs, cur) {
            Err(_) => {
                proof {
                    assert(text_lists(columns@) + Seq::<Seq<Seq<char>>>::empty() =~= text_lists(
                        columns@,
                    ));
                }
                break ;
            },
            Ok((after, _)) => after,
        };
        let (end, words) = parse_words(i, cs, after);
        proof {
            let rest = more_columns_at(i@, end as int);
            assert(text_lists(columns@.push(words)) =~= text_lists(columns@).push(texts(words@)));
            assert(text_lists(columns@) + (seq![texts(words@)] + rest.1) =~= text_lists(
                columns@,
            ).push(texts(words@)) + rest.1);
        }
        columns.push(words);
        cur = end;
    }
    let close = scan_run(cs, cur, CharClass::Space);
    if close < cs.len() && cs[close] == ')' {
        Ok((close + 1, columns))
    } else {
        Err(ParseError::ExpectedCloseParen)
    }
}

/// Reads one item of a selection at `pos`.
fn parse_item<'a>(i: &'a str, cs: &[char], pos: usize) -> (r: Result<(usize, &'a str), ParseError>)
    requires
        cs@ == i@,
        pos <= cs@.len(),
    ensures
        match r {
            Ok((end, item)) => item_at(i@, pos as int) == Ok::<(int, Seq<char>), ParseError>(
                (end as int, item@),
            ) && pos <= end <= cs@.len(),
            Err(e) => item_at(i@, pos as int) == Err::<(int, Seq<char>), ParseError>(e),
        },
{
    match match_keyword(cs, pos, "count(*)") {
        Some(end) => Ok((end, i.substring_char(pos, end))),
        None => {
            let end = scan_run(cs, pos, CharClass::Alphanumeric);
            if pos < end {
                Ok((end, i.substring_char(pos, end)))
            } else {
                Err(ParseError::ExpectedName)
            }
        },
    }
}

/// Reads one item or more, separated by commas, at `pos`.
fn parse_selection<'a>(i: &'a str, cs: &[char], pos: usize) -> (r: Result<
    (usize, Vec<&'a str>),
    ParseError,
>)
    requires
        cs@ == i@,
        pos <= cs@.len(),
    ensures
        match r {
            Ok((end, items)) => selection_at(i@, pos as int) == Ok::<
                (int, Seq<Seq<char>>),
                ParseError,
            >((end as int, texts(items@))) && pos <= end <= cs@.len(),
            Err(e) => selection_at(i@, pos as int) == Err::<(int, Seq<Seq<char>>), ParseError>(e),
        },
{
    let (first_end, first) = match parse_item(i, cs, pos) {
        Err(e) => { return Err(e); },
        Ok(found) => found,
    };
    let mut items: Vec<&'a str> = Vec::new();
    items.push(first);
    let mut cur = first_end;
    proof {
        assert(texts(items@) =~= seq![first@]);
    }
    loop
        invariant_except_break
            cs@ == i@,
            pos <= first_end <= cur <= cs@.len(),
            cons_tail(seq![first@], more_items_at(i@, first_end as int)) == cons_tail(
                texts(items@),
                more_items_at(i@, cur as int),
            ),
        ensures
            pos <= cur <= cs@.len(),
            cons_tail(seq![first@], more_items_at(i@, first_end as int)) == (
                cur as int,
                texts(items@),
            ),
        decreases cs@.len() - cur,
    {
        let after = match parse_space_comma(cs, cur) {
            Err(_) => {
                proof {
                    lemma_cons_tail_push(texts(items@), i@, more_items_at(i@, cur as int));
                }
                break ;
            },
            Ok((after, _)) => after,
        };
        let (end, item) = match parse_item(i, cs, after) {
            Err(_) => {
                proof {
                    lemma_cons_tail_push(texts(items@), i@, more_items_at(i@, cur as int));
                }
                break ;
            },
            Ok(found) => found,
        };
        proof {
            assert(texts(items@.push(item)) =~= texts(items@).push(item@));
            lemma_cons_tail_push(texts(items@), item@, more_items_at(i@, end as int));
        }
        items.push(item);
        cur = end;
    }
    Ok((cur, items))
}

/// Reads white space, a comma and white space at the start of `i`.
///
/// Returns the text after them and the comma itself. Fails when something
/// other than a comma follows the first white space.
pub fn space_comma<'a>(i: &'a str) -> (r: Result<(&'a str, &'a str), ParseError>)
    ensures
        match r {
            Ok((rest, comma)) => space_comma_at(i@, 0) matches Ok((end, at)) && rest@ == i@.skip(
                end,
            ) && comma@ == i@.subrange(at, at + 1) && comma@ == seq![','],
            Err(e) => space_comma_at(i@, 0) == Err::<(int, int), ParseError>(e),
        },
{
    let cs = chars_of(i);
    match parse_space_comma(cs.as_slice(), 0) {
        Err(e) => Err(e),
        Ok((end, comma)) => {
            let rest = i.substring_char(end, cs.len());
            let found = i.substring_char(comma, comma + 1);
            proof {
                assert(rest@ =~= i@.skip(end as int));
                assert(found@ =~= seq![',']);
            }
            Ok((rest, found))
        },
    }
}

/// Reads the words of one column at the start of `i`: names separated by
/// white space.
///
/// Returns the text after the last name and the names. Never fails: where
/// `i` starts with no name, the list is empty and all of `i` is left.
pub fn column_items<'a>(i: &'a str) -> (r: Result<(&'a str, Vec<&'a str>), ParseError>)
    ensures
        r matches Ok((rest, words)) && rest@ == i@.skip(words_at(i@, 0).0) && texts(words@)
            == words_at(i@, 0).1,
{
    let cs = chars_of(i);
    let (end, words) = parse_words(i, cs.as_slice(), 0);
    let rest = i.substring_char(end, cs.len());
    proof {
        assert(rest@ =~= i@.skip(end as int));
    }
    Ok((rest, words))
}

/// Reads a list of columns between parentheses at the start of `i`.
///
/// The columns are separated by commas and each is a list of names, which
/// may be empty. Returns the text after the closing parenthesis and the
/// words of each column. Fails when `i` does not start with an opening
/// parenthesis, and when no closing parenthesis follows the last column.
pub fn columns<'a>(i: &'a str) -> (r: Result<(&'a str, Vec<Vec<&'a str>>), ParseError>)
    ensures
        match r {
            Ok((rest, columns)) => columns_at(i@, 0) matches Ok((end, lists)) && rest@ == i@.skip(
                end,
            ) && text_lists(columns@) == lists,
            Err(e) => columns_at(i@, 0) == Err::<(int, Seq<Seq<Seq<char>>>), ParseError>(e),
        },
{
    let cs = chars_of(i);
    match parse_columns(i, cs.as_slice(), 0) {
        Err(e) => Err(e),
        Ok((end, columns)) => {
            let rest = i.substring_char(end, cs.len());
            proof {
                assert(rest@ =~= i@.skip(end as int));
            }
            Ok((rest, columns))
        },
    }
}

/// Reads a `CREATE TABLE` statement at the start of `i`.
///
/// Returns the text after the statement, the table's name and the words of
/// each column. Fails where the statement departs from the grammar; the
/// error names what was missed first.
pub fn create_table<'a>(i: &'a str) -> (r: Result<
    (&'a str, (&'a str, Vec<Vec<&'a str>>)),
    ParseError,
>)
    ensures
        match r {
            Ok((rest, (table, columns))) => create_table_at(i@, 0) matches Ok((end, (name, lists)))
                && rest@ == i@.skip(end) && table@ == name && text_lists(columns@) == lists,
            Err(e) => create_table_at(i@, 0) == Err::<
                (int, (Seq<char>, Seq<Seq<Seq<char>>>)),
                ParseError,
            >(e),
        },
{
    let cs = chars_of(i);
    let chars = cs.as_slice();
    let after_keyword = match match_keyword(chars, 0, "create table") {
        None => { return Err(ParseError::ExpectedKeyword); },
        Some(end) => end,
    };
    let name_at = scan_run(chars, after_keyword, CharClass::Space);
    if name_at == after_keyword {
        return Err(ParseError::ExpectedSpace);
    }
    let name_end = scan_run(chars, name_at, CharClass::Alphanumeric);
    if name_end == name_at {
        return Err(ParseError::ExpectedName);
    }
    let columns_start = scan_run(chars, name_end, CharClass::Space);
    if columns_start == name_end {
        return Err(ParseError::ExpectedSpace);
    }
    match parse_columns(i, chars, columns_start) {
        Err(e) => Err(e),
        Ok((end, columns)) => {
            let rest = i.substring_char(end, cs.len());
            let table = i.substring_char(name_at, name_end);
            proof {
                assert(rest@ =~= i@.skip(end as int));
            }
            Ok((rest, (table, columns)))
        },
    }
}

/// Reads the items of a selection at the start of `i`: one or more of
/// `count(*)` and names, separated by commas.
///
/// Returns the text after the last item and the items. Fails when `i` does
/// not start with an item.
pub fn selection<'a>(i: &'a str) -> (r: Result<(&'a str, Vec<&'a str>), ParseError>)
    ensures
        match r {
            Ok((rest, items)) => selection_at(i@, 0) matches Ok((end, found)) && rest@ == i@.skip(
                end,
            ) && texts(items@) == found,
            Err(e) => selection_at(i@, 0) == Err::<(int, Seq<Seq<char>>), ParseError>(e),
        },
{
    let cs = chars_of(i);
    match parse_selection(i, cs.as_slice(), 0) {
        Err(e) => Err(e),
        Ok((end, items)) => {
            let rest = i.substring_char(end, cs.len());
            proof {
                assert(rest@ =~= i@.skip(end as int));
            }
            Ok((rest, items))
        },
    }
}

/// Reads a `SELECT` statement at the start of `i`.
///
/// Returns the text after the statement, the table's name and the selected
/// items. Fails where the statement departs from the grammar; the error
/// names what was missed first.
pub fn select<'a>(i: &'a str) -> (r: Result<(&'a str, (&'a str, Vec<&'a str>)), ParseError>)
    ensures
        match r {
            Ok((rest, (table, items))) => select_at(i@, 0) matches Ok((end, (name, found)))
                && rest@ == i@.skip(end) && table@ == name && texts(items@) == found,
            Err(e) => select_at(i@, 0) == Err::<(int, (Seq<char>, Seq<Seq<char>>)), ParseError>(e),
        },
{
    let cs = chars_of(i);
    let chars = cs.as_slice();
    let after_keyword = match match_keyword(chars, 0, "select") {
        None => { return Err(ParseError::ExpectedKeyword); },
        Some(end) => end,
    };
    let selection_start = scan_run(chars, after_keyword, CharClass::Space);
    if selection_start == after_keyword {
        return Err(ParseError::ExpectedSpace);
    }
    let (selection_end, items) = match parse_selection(i, chars, selection_start) {
        Err(e) => { return Err(e); },
        Ok(found) => found,
    };
    let from_at = scan_run(chars, selection_end, CharClass::Space);
    if from_at == selection_end {
        return Err(ParseError::ExpectedSpace);
    }
    let after_from = match match_keyword(chars, from_at, "from") {
        None => { return Err(ParseError::ExpectedKeyword); },
        Some(end) => end,
    };
    let name_at = scan_run(chars, after_from, CharClass::Space);
    if name_at == after_from {
        return Err(ParseError::ExpectedSpace);
    }
    let name_end = scan_run(chars, name_at, CharClass::Alphanumeric);
    if name_end == name_at {
        return Err(ParseError::ExpectedName);
    }
    let rest = i.substring_char(name_end, cs.len());
    let table = i.substring_char(name_at, name_end);
    proof {
        assert(rest@ =~= i@.skip(name_end as int));
    }
    Ok((rest, (table, items)))
}

} // verus!
