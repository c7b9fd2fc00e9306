//! The two result tables, as rows of cells. Writing them out is left to the
//! caller.

use crate::resolver::{Connection, ConnectionView, ErrorView, ExtractionError};
use vstd::prelude::*;

verus! {

/// The header of the connections table.
pub open spec fn connections_header() -> Seq<Seq<char>> {
    seq!["path"@, "data source"@, "user id"@, "provider"@]
}

/// The header of the errors table.
pub open spec fn errors_header() -> Seq<Seq<char>> {
    seq!["path"@, "error"@]
}

/// The row of a connection.
pub open spec fn connection_row(c: ConnectionView) -> Seq<Seq<char>> {
    seq![c.path, c.data_source, c.user_id, c.provider]
}

/// The row of an error.
pub open spec fn error_row(e: ErrorView) -> Seq<Seq<char>> {
    seq![e.path, e.message]
}

/// The connections table: the header, then one row for each connection, in
/// order.
pub open spec fn connection_rows(connections: Seq<ConnectionView>) -> Seq<Seq<Seq<char>>> {
    seq![connections_header()] + Seq::new(
        connections.len(),
        |i: int| connection_row(connections[i]),
    )
}

/// The errors table: the header, then one row for each error, in order.
pub open spec fn error_rows(errors: Seq<ErrorView>) -> Seq<Seq<Seq<char>>> {
    seq![errors_header()] + Seq::new(errors.len(), |i: int| error_row(errors[i]))
}

/// The connections table with the columns `path`, `data source`, `user id`
/// and `provider`: its header and a row for each connection, in the order
/// of discovery.
pub fn connections_table(connections: &Vec<Connection>) -> (rows: Vec<Vec<String>>)
    ensures
        rows.deep_view() == connection_rows(connections.deep_view()),
{
    let mut rows: Vec<Vec<String>> = Vec::new();
    let mut header: Vec<String> = Vec::new();
    header.push("path".to_owned());
    header.push("data source".to_owned());
    header.push("user id".to_owned());
    header.push("provider".to_owned());
    assert(header.deep_view() =~= connections_header());
    rows.push(header);
    assert(rows.deep_view() =~= seq![connections_header()]);
    let mut i: usize = 0;
    while i < connections.len()
        invariant
            i <= connections.len(),
            rows.deep_view() == connection_rows(connections.deep_view().take(i as int)),
        decreases connections.len() - i,
    {
        let ghost before = rows.deep_view();
        let c = &connections[i];
        let mut row: Vec<String> = Vec::new();
        row.push(c.path.clone());
        row.push(c.data_source.clone());
        row.push(c.user_id.clone());
        row.push(c.provider.clone());
        assert(row.deep_view() =~= connection_row(c@));
        rows.push(row);
        assert(rows.deep_view() =~= before.push(connection_row(c@)));
        assert(rows.deep_view() =~= connection_rows(connections.deep_view().take(i + 1)));
        i += 1;
    }
    assert(connections.deep_view().take(connections.len() as int) =~= connections.deep_view());
    rows
}

/// The errors table with the columns `path` and `error`: its header and a
/// row for each error, in the order of discovery.
pub fn errors_table(errors: &Vec<ExtractionError>) -> (rows: Vec<Vec<String>>)
    ensures
        rows.deep_view() == error_rows(errors.deep_view()),
{
    let mut rows: Vec<Vec<String>> = Vec::new();
    let mut header: Vec<String> = Vec::new();
    header.push("path".to_owned());
    header.push("error".to_owned());
    assert(header.deep_view() =~= errors_header());
    rows.push(header);
    assert(rows.deep_view() =~= seq![errors_header()]);
    let mut i: usize = 0;
    while i < errors.len()
        invariant
            i <= errors.len(),
            rows.deep_view() == error_rows(errors.deep_view().take(i as int)),
        decreases errors.len() - i,
    {
        let ghost before = rows.deep_view();
        let e = &errors[i];
        let mut row: Vec<String> = Vec::new();
        row.push(e.path.clone());
        row.push(e.message.clone());
        assert(row.deep_view() =~= error_row(e@));
        rows.push(row);
        assert(rows.deep_view() =~= before.push(error_row(e@)));
        assert(rows.deep_view() =~= error_rows(errors.deep_view().take(i + 1)));
        i += 1;
    }
    assert(errors.deep_view().take(errors.len() as int) =~= errors.deep_view());
    rows
}

} // verus!
