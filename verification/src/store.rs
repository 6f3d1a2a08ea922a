//! The durable history: the text of the statements that create, fill and
//! empty the `history` table.

use vstd::prelude::*;
use vstd::std_specs::iter::IteratorSpec;
use vstd::string::StringExecFns;

verus! {

/// `String::push` puts one character behind those that the string holds.
/// As vstd does for `Vec::push`, this leaves aside a string that outgrows
/// the address space.
pub assume_specification[ String::push ](text: &mut String, ch: char)
    ensures
        final(text)@ == old(text)@.push(ch),
;

/// The character that stands for a single decimal digit.
pub open spec fn digit_char(d: nat) -> char
    recommends
        d < 10,
{
    seq!['0', '1', '2', '3', '4', '5', '6', '7', '8', '9'][d as int]
}

/// A number in base ten, most significant digit first, without leading
/// zeros.
pub open spec fn decimal(n: nat) -> Seq<char>
    decreases n,
{
    if n < 10 {
        seq![digit_char(n)]
    } else {
        decimal(n / 10).push(digit_char(n % 10))
    }
}

fn digit_of(d: u64) -> (ch: char)
    requires
        d < 10,
    ensures
        ch == digit_char(d as nat),
{
    if d == 0 {
        '0'
    } else if d == 1 {
        '1'
    } else if d == 2 {
        '2'
    } else if d == 3 {
        '3'
    } else if d == 4 {
        '4'
    } else if d == 5 {
        '5'
    } else if d == 6 {
        '6'
    } else if d == 7 {
        '7'
    } else if d == 8 {
        '8'
    } else {
        '9'
    }
}

/// Appends `n` in base ten to `text`.
fn push_decimal(text: &mut String, n: u64)
    ensures
        final(text)@ == old(text)@ + decimal(n as nat),
    decreases n,
{
    if n >= 10 {
        push_decimal(text, n / 10);
    }
    text.push(digit_of(n % 10));
}

/// What one character of a text becomes inside a quoted literal: a quote is
/// doubled, a NUL leaves the quotes and comes back in as `char(0)`, every
/// other character stands for itself.
pub open spec fn literal_piece(c: char) -> Seq<char> {
    if c == '\'' {
        seq!['\'', '\'']
    } else if c == '\0' {
        "'||char(0)||'"@
    } else {
        seq![c]
    }
}

/// The pieces of all characters of `content`, in order.
pub open spec fn literal_body(content: Seq<char>) -> Seq<char>
    decreases content.len(),
{
    if content.len() == 0 {
        Seq::empty()
    } else {
        literal_body(content.drop_last()) + literal_piece(content.last())
    }
}

/// The SQL expression whose value is the text `content`.
pub open spec fn text_literal(content: Seq<char>) -> Seq<char> {
    seq!['\''] + literal_body(content) + seq!['\'']
}

/// `head` in front of the text that was read behind it, if any was.
pub open spec fn read_on(head: char, behind: Option<Seq<char>>) -> Option<Seq<char>> {
    match behind {
        Some(text) => Some(seq![head] + text),
        None => None,
    }
}

/// The text that SQL reads from what stands behind an opening quote, up to
/// the end of the expression. Two quotes in a row are one quote of the text.
/// A single quote closes the literal: it either ends the expression, or
/// `||char(0)||` and the next opening quote follow, which puts a NUL into
/// the text. A NUL itself cannot stand in a statement, and an expression
/// that ends inside the quotes has no value.
pub open spec fn quoted_value(rest: Seq<char>) -> Option<Seq<char>>
    decreases rest.len(),
{
    if rest.len() == 0 || rest[0] == '\0' {
        None
    } else if rest[0] != '\'' {
        read_on(rest[0], quoted_value(rest.skip(1)))
    } else if rest.len() == 1 {
        Some(Seq::empty())
    } else if rest[1] == '\'' {
        read_on('\'', quoted_value(rest.skip(2)))
    } else if rest.len() > 13 && rest.take(13) == "'||char(0)||'"@ {
        read_on('\0', quoted_value(rest.skip(13)))
    } else {
        None
    }
}

/// The text that SQL reads from an expression of quoted literals joined by
/// `||char(0)||`, if it is one.
pub open spec fn literal_value(expression: Seq<char>) -> Option<Seq<char>> {
    if expression.len() > 0 && expression[0] == '\'' {
        quoted_value(expression.skip(1))
    } else {
        None
    }
}

/// The pieces of a text that begins with `first` are the piece of `first`
/// and then the pieces of the rest.
proof fn lemma_literal_body_front(first: char, rest: Seq<char>)
    ensures
        literal_body(seq![first] + rest) == literal_piece(first) + literal_body(rest),
    decreases rest.len(),
{
    let whole = seq![first] + rest;
    if rest.len() == 0 {
        assert(whole.drop_last() =~= rest);
        assert(literal_body(whole) =~= literal_piece(first) + literal_body(rest));
    } else {
        lemma_literal_body_front(first, rest.drop_last());
        assert(whole.drop_last() =~= seq![first] + rest.drop_last());
        assert(literal_body(whole) =~= literal_piece(first) + literal_body(rest));
    }
}

proof fn lemma_quoted_value_of_body(content: Seq<char>)
    ensures
        quoted_value(literal_body(content) + seq!['\'']) == Some(content),
    decreases content.len(),
{
    let rest = literal_body(content) + seq!['\''];
    if content.len() == 0 {
        assert(content =~= Seq::<char>::empty());
    } else {
        let first = content[0];
        let tail = content.skip(1);
        let behind = literal_body(tail) + seq!['\''];
        assert(content =~= seq![first] + tail);
        lemma_literal_body_front(first, tail);
        lemma_quoted_value_of_body(tail);
        assert(rest =~= literal_piece(first) + behind);
        if first == '\'' {
            assert(rest.skip(2) =~= behind);
        } else if first == '\0' {
            reveal_strlit("'||char(0)||'");
            assert(rest.take(13) =~= "'||char(0)||'"@);
            assert(rest.skip(13) =~= behind);
        } else {
            assert(rest.skip(1) =~= behind);
        }
    }
}

/// Whatever the text, SQL reads it back from its expression: no character
/// of it ends the literal early or is lost.
pub proof fn law_text_literal_reads_back(content: Seq<char>)
    ensures
        literal_value(text_literal(content)) == Some(content),
{
    lemma_quoted_value_of_body(content);
    assert(text_literal(content).skip(1) =~= literal_body(content) + seq!['\'']);
}

/// Appends the SQL expression for `content` to `text`.
fn push_text_literal(text: &mut String, content: &str)
    ensures
        final(text)@ == old(text)@ + text_literal(content@),
{
    text.push('\'');
    for c in rest: content.chars()
        invariant
            rest.seq() == content@,
            text@ == old(text)@ + seq!['\''] + literal_body(content@.take(rest.index() as int)),
    {
        proof {
            let before = content@.take(rest.index() as int);
            let after = content@.take(rest.index() + 1);
            assert(after.drop_last() == before);
            assert(after.last() == c);
        }
        if c == '\'' {
            text.push('\'');
            text.push('\'');
        } else if c == '\0' {
            text.append("'||char(0)||'");
        } else {
            text.push(c);
        }
    }
    proof {
        assert(content@.take(content@.len() as int) == content@);
    }
    text.push('\'');
}

/// The statement that appends one row with `content` and `timestamp`; the
/// store assigns the row's id.
pub open spec fn insert_statement_text(content: Seq<char>, timestamp: nat) -> Seq<char> {
    "INSERT INTO history(entry, timestamp) VALUES ("@ + text_literal(content) + ", "@ + decimal(
        timestamp,
    ) + ")"@
}

/// The statement that creates the table unless it is there already.
pub open spec fn create_table_text() -> Seq<char> {
    "CREATE TABLE IF NOT EXISTS history (id INTEGER PRIMARY KEY AUTOINCREMENT, entry TEXT, timestamp INTEGER);"@
}

/// The statement that deletes every row.
pub open spec fn clear_text() -> Seq<char> {
    "DELETE FROM history;"@
}

/// The place of the database file, relative to the running process.
pub open spec fn database_path_text() -> Seq<char> {
    "./copy-camel.db"@
}

proof fn lemma_literal_body_holds_no_nul(content: Seq<char>)
    ensures
        !literal_body(content).contains('\0'),
    decreases content.len(),
{
    if content.len() > 0 {
        lemma_literal_body_holds_no_nul(content.drop_last());
        reveal_strlit("'||char(0)||'");
        let earlier = literal_body(content.drop_last());
        let piece = literal_piece(content.last());
        assert forall|i: int| 0 <= i < (earlier + piece).len() implies (earlier + piece)[i]
            != '\0' by {
            if i < earlier.len() {
                assert(earlier.contains(earlier[i]));
            }
        }
    }
}

proof fn lemma_decimal_holds_no_nul(n: nat)
    ensures
        !decimal(n).contains('\0'),
    decreases n,
{
    if n >= 10 {
        lemma_decimal_holds_no_nul(n / 10);
        let higher = decimal(n / 10);
        assert forall|i: int| 0 <= i < decimal(n).len() implies decimal(n)[i] != '\0' by {
            if i < higher.len() {
                assert(higher.contains(higher[i]));
            }
        }
    }
}

/// No statement that appends a row holds a NUL, so an interface that takes
/// statements as NUL-terminated strings gets every one of them whole.
pub proof fn law_insert_statement_holds_no_nul(content: Seq<char>, timestamp: nat)
    ensures
        !insert_statement_text(content, timestamp).contains('\0'),
{
    lemma_literal_body_holds_no_nul(content);
    lemma_decimal_holds_no_nul(timestamp);
    reveal_strlit("INSERT INTO history(entry, timestamp) VALUES (");
    reveal_strlit(", ");
    reveal_strlit(")");
    let opening = "INSERT INTO history(entry, timestamp) VALUES ("@;
    let body = literal_body(content);
    let digits = decimal(timestamp);
    let statement = insert_statement_text(content, timestamp);
    assert forall|i: int| 0 <= i < statement.len() implies statement[i] != '\0' by {
        let at_body = i - opening.len() - 1;
        let at_digits = at_body - body.len() - 3;
        if 0 <= at_body < body.len() {
            assert(body.contains(body[at_body]));
        } else if 0 <= at_digits < digits.len() {
            assert(digits.contains(digits[at_digits]));
        }
    }
}

/// Builds the statement that appends one row to the table.
pub fn insert_statement(content: &str, timestamp: u64) -> (statement: String)
    ensures
        statement@ == insert_statement_text(content@, timestamp as nat),
{
    let mut statement = String::from_str("INSERT INTO history(entry, timestamp) VALUES (");
    push_text_literal(&mut statement, content);
    statement.append(", ");
    push_decimal(&mut statement, timestamp);
    statement.append(")");
    statement
}

/// The statement to run once at startup, before any row is written.
pub fn create_table_statement() -> (statement: &'static str)
    ensures
        statement@ == create_table_text(),
{
    "CREATE TABLE IF NOT EXISTS history (id INTEGER PRIMARY KEY AUTOINCREMENT, entry TEXT, timestamp INTEGER);"
}

/// The statement that empties the table. Ids that were handed out are not
/// handed out again: the table counts on from the highest it ever had.
pub fn clear_statement() -> (statement: &'static str)
    ensures
        statement@ == clear_text(),
{
    "DELETE FROM history;"
}

/// Where the database file lives; it is created on first use.
pub fn database_path() -> (path: &'static str)
    ensures
        path@ == database_path_text(),
{
    "./copy-camel.db"
}

} // verus!
