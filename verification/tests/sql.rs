use sqlite_reader::sql::{
    column_items, columns, create_table, select, selection, space_comma, ParseError,
};

#[test]
fn test_select() {
    let input = "SELECT name, color FROM apples";
    let (remaining, result) = select(input).unwrap();
    assert_eq!(remaining, "");
    assert_eq!(result, ("apples", vec!["name", "color"]));
}

#[test]
fn test_selection() {
    let input = "name, color";
    let (remaining, result) = selection(input).unwrap();
    assert_eq!(remaining, "");
    assert_eq!(result, vec!["name", "color"]);
}

#[test]
fn test_create_table() {
    let input = "CREATE TABLE apples
(
	id integer primary key autoincrement,
	name text,
	color text
)";
    let (remaining, result) = create_table(input).unwrap();
    assert_eq!(remaining, "");
    assert_eq!(
        result,
        (
            "apples",
            vec![
                vec!["id", "integer", "primary", "key", "autoincrement"],
                vec!["name", "text"],
                vec!["color", "text"]
            ]
        )
    );
}

#[test]
fn test_columns() {
    let input = "(id integer primary key autoincrement, name text, color text)";
    let (remaining, result) = columns(input).unwrap();
    assert_eq!(remaining, "");
    assert_eq!(
        result,
        vec![
            vec!["id", "integer", "primary", "key", "autoincrement"],
            vec!["name", "text"],
            vec!["color", "text"]
        ]
    );
}

#[test]
fn test_space_comma() {
    let input = ", ";
    let (remaining, result) = space_comma(input).unwrap();
    assert_eq!(remaining, "");
    assert_eq!(result, ",");
}

#[test]
fn test_column_items() {
    let input = "id integer primary key autoincrement,";
    let (remaining, result) = column_items(input).unwrap();
    assert_eq!(remaining, ",");
    assert_eq!(result, vec!["id", "integer", "primary", "key", "autoincrement"]);
}

#[test]
fn select_count_star() {
    let (remaining, result) = select("SELECT COUNT(*) FROM apples").unwrap();
    assert_eq!(remaining, "");
    assert_eq!(result, ("apples", vec!["COUNT(*)"]));
}

#[test]
fn select_single_column_leaves_the_rest() {
    let (remaining, result) = select("select name from apples where x").unwrap();
    assert_eq!(remaining, " where x");
    assert_eq!(result, ("apples", vec!["name"]));
}

#[test]
fn select_keywords_in_any_case() {
    let (remaining, result) = select("sElEcT a ,b\t,\nc FrOm t1").unwrap();
    assert_eq!(remaining, "");
    assert_eq!(result, ("t1", vec!["a", "b", "c"]));
}

#[test]
fn select_name_starting_like_count() {
    let (remaining, result) = selection("counter, count").unwrap();
    assert_eq!(remaining, "");
    assert_eq!(result, vec!["counter", "count"]);
}

#[test]
fn selection_leaves_a_comma_without_item() {
    let (remaining, result) = selection("a, b, *").unwrap();
    assert_eq!(remaining, ", *");
    assert_eq!(result, vec!["a", "b"]);
}

#[test]
fn select_errors() {
    assert_eq!(select("INSERT name FROM apples"), Err(ParseError::ExpectedKeyword));
    assert_eq!(select("SEL"), Err(ParseError::ExpectedKeyword));
    assert_eq!(select(""), Err(ParseError::ExpectedKeyword));
    assert_eq!(select("SELECT"), Err(ParseError::ExpectedSpace));
    assert_eq!(select("SELECTname FROM apples"), Err(ParseError::ExpectedSpace));
    assert_eq!(select("SELECT * FROM apples"), Err(ParseError::ExpectedName));
    assert_eq!(select("SELECT name"), Err(ParseError::ExpectedSpace));
    assert_eq!(select("SELECT name,color apples"), Err(ParseError::ExpectedKeyword));
    assert_eq!(select("SELECT name FROM"), Err(ParseError::ExpectedSpace));
    assert_eq!(select("SELECT name FROM "), Err(ParseError::ExpectedName));
    assert_eq!(select("SELECT name FROM ("), Err(ParseError::ExpectedName));
}

#[test]
fn selection_errors() {
    assert_eq!(selection(""), Err(ParseError::ExpectedName));
    assert_eq!(selection(" name"), Err(ParseError::ExpectedName));
    assert_eq!(selection("count(*"), Ok(("(*", vec!["count"])));
}

#[test]
fn space_comma_errors_and_rest() {
    assert_eq!(space_comma(""), Err(ParseError::ExpectedComma));
    assert_eq!(space_comma("  x,"), Err(ParseError::ExpectedComma));
    assert_eq!(space_comma(" \t\r\n, \n x ,"), Ok(("x ,", ",")));
    assert_eq!(space_comma(",,"), Ok((",", ",")));
}

#[test]
fn column_items_never_fail() {
    assert_eq!(column_items(""), Ok(("", vec![])));
    assert_eq!(column_items(" id"), Ok((" id", vec![])));
    assert_eq!(column_items("id  \n text  )"), Ok(("  )", vec!["id", "text"])));
    assert_eq!(column_items("id_x"), Ok(("_x", vec!["id"])));
    assert_eq!(column_items("caf\u{e9} au lait"), Ok(("\u{e9} au lait", vec!["caf"])));
}

#[test]
fn columns_with_empty_columns() {
    assert_eq!(columns("()"), Ok(("", vec![vec![]])));
    assert_eq!(columns("( , a ,)x"), Ok(("x", vec![vec![], vec!["a"], vec![]])));
    assert_eq!(columns("(a b\n)"), Ok(("", vec![vec!["a", "b"]])));
}

#[test]
fn columns_errors() {
    assert_eq!(columns(""), Err(ParseError::ExpectedOpenParen));
    assert_eq!(columns(" (a)"), Err(ParseError::ExpectedOpenParen));
    assert_eq!(columns("(a, b"), Err(ParseError::ExpectedCloseParen));
    assert_eq!(columns("(a; b)"), Err(ParseError::ExpectedCloseParen));
    assert_eq!(columns("(a b,"), Err(ParseError::ExpectedCloseParen));
}

#[test]
fn create_table_errors() {
    assert_eq!(create_table("CREATE  TABLE t (a)"), Err(ParseError::ExpectedKeyword));
    assert_eq!(create_table("CREATE INDEX t (a)"), Err(ParseError::ExpectedKeyword));
    assert_eq!(create_table("create table"), Err(ParseError::ExpectedSpace));
    assert_eq!(create_table("create table (a)"), Err(ParseError::ExpectedName));
    assert_eq!(create_table("create table t(a)"), Err(ParseError::ExpectedSpace));
    assert_eq!(create_table("create table t a"), Err(ParseError::ExpectedOpenParen));
    assert_eq!(create_table("create table t (a"), Err(ParseError::ExpectedCloseParen));
}

#[test]
fn create_table_on_one_line() {
    let (remaining, result) = create_table("create table T1 (id integer,name text);").unwrap();
    assert_eq!(remaining, ";");
    assert_eq!(result, ("T1", vec![vec!["id", "integer"], vec!["name", "text"]]));
}
