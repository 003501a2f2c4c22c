//! The executor: binds parsed statements to the catalog and the table
//! engine, and collects what a query prints.
use vstd::prelude::*;
use crate::ids::version_7;
use vstd::string::StringExecFns;
use crate::database::{find, DataBase, DataBaseView};
use crate::render::{table_rendering, title_line};
use crate::rows::{matched_values, pair_views, row_bytes};
use crate::table::{column_views, lemma_with_page_keeps_rows, row_views, Column, ColumnView};
use crate::text::text_views;

verus! {

/// The state of a [`Processor`].
pub ghost struct ProcessorView {
    pub database: DataBaseView,
    pub output: Seq<Seq<char>>,
}

/// The view of a statement's result: nothing, or the error's text.
pub open spec fn result_view(result: Result<(), String>) -> Result<(), Seq<char>> {
    match result {
        Ok(_) => Ok(()),
        Err(e) => Err(e@),
    }
}

/// The error that an insert gives when the engine refuses the row.
pub open spec fn insert_error(cause: Seq<char>) -> Seq<char> {
    "Error inserting row: "@ + cause
}

/// What a parsed statement holds.
pub ghost enum StatementView {
    /// A table to create, with the fields the statement declares.
    Create { table_name: Seq<char>, columns: Seq<ColumnView> },
    /// A row to insert, as pairs of column name and value in the order
    /// written.
    Insert { table_name: Seq<char>, pairs: Seq<(Seq<char>, Seq<char>)> },
    /// A query for some columns of a table.
    Select { table_name: Seq<char>, columns: Seq<Seq<char>> },
    /// An update, which does nothing.
    Update,
}

impl ProcessorView {
    /// Running `statement` went from `self` to `after` with `result`.
    pub open spec fn executed(
        self,
        statement: StatementView,
        result: Result<(), Seq<char>>,
        after: ProcessorView,
    ) -> bool {
        match statement {
            StatementView::Create { table_name, columns } => self.created(
                table_name,
                columns,
                result,
                after,
            ),
            StatementView::Insert { table_name, pairs } => self.inserted(
                table_name,
                pairs,
                result,
                after,
            ),
            StatementView::Select { table_name, columns } => self.selected(
                table_name,
                columns,
                result,
                after,
            ),
            StatementView::Update => result is Ok && after == self,
        }
    }

    /// Well formed is the catalog.
    pub open spec fn wf(self) -> bool {
        self.database.wf()
    }

    /// A query for `columns` on the table named `table_name` went from
    /// `self` to `after` with `result`: without such a table it fails and
    /// changes nothing; else it brings the table's pages into memory and
    /// adds the title line and the drawn table to the output.
    pub open spec fn selected(
        self,
        table_name: Seq<char>,
        columns: Seq<Seq<char>>,
        result: Result<(), Seq<char>>,
        after: ProcessorView,
    ) -> bool {
        match find(self.database.tables, table_name) {
            None => result == Err::<(), Seq<char>>("Table not found"@) && after == self,
            Some(i) => {
                let table = self.database.tables[i];
                &&& result is Ok
                &&& after.database == self.database.with_table_at(
                    i,
                    table.with_pages(self.database.disk, table.pages_in_use()),
                )
                &&& after.output == self.output + seq![
                    title_line(table.name, table.total_rows),
                ] + table_rendering(table.grid(self.database.disk, columns))
            },
        }
    }

    /// An insert of `pairs` into the table named `table_name` went from
    /// `self` to `after` with `result`. Without such a table it fails and
    /// changes nothing. A full table, or a page without a free slot, fails
    /// with the cause; nothing is stored, and at most a page comes into
    /// memory. Else a row with a fresh identifier and the matched values is
    /// appended and written to the backing file, and the header is written
    /// with the new row count.
    pub open spec fn inserted(
        self,
        table_name: Seq<char>,
        pairs: Seq<(Seq<char>, Seq<char>)>,
        result: Result<(), Seq<char>>,
        after: ProcessorView,
    ) -> bool {
        match find(self.database.tables, table_name) {
            None => result == Err::<(), Seq<char>>("Table not found"@) && after == self,
            Some(i) => {
                let table = self.database.tables[i];
                let disk = self.database.disk;
                let page = table.total_rows / table.rows_per_page();
                if table.total_rows >= table.capacity() {
                    result == Err::<(), Seq<char>>(insert_error("Table full."@)) && after == self
                } else if table.page(disk, page).current_row >= table.rows_per_page() {
                    &&& result == Err::<(), Seq<char>>(insert_error("Page full."@))
                    &&& after.output == self.output
                    &&& after.database == self.database.with_table_at(
                        i,
                        table.with_page(disk, page),
                    )
                } else {
                    &&& result is Ok
                    &&& after.output == self.output
                    &&& exists|id: Seq<u8>|
                        version_7(id) && after.database == #[trigger] self.stored(
                            i,
                            row_bytes(table.columns, id, matched_values(table.columns, pairs)),
                        )
                }
            },
        }
    }

    /// The catalog after `row` is appended to the table at index `i`: the
    /// page that takes the row is written to the backing file, and then the
    /// header, which holds the new row count.
    pub open spec fn stored(self, i: int, row: Seq<u8>) -> DataBaseView {
        (DataBaseView {
            tables: self.database.tables.update(
                i,
                self.database.tables[i].insert(self.database.disk, row).0,
            ),
            disk: self.database.tables[i].insert(self.database.disk, row).1,
            num_tables: self.database.num_tables,
        }).flushed()
    }

    /// Creating a table named `table_name` over `columns` went from `self`
    /// to `after` with `result`: where the catalog cannot add the table it
    /// fails with the reason and changes nothing; else the table is added,
    /// empty, with the identifier column in front, and the header is
    /// written.
    pub open spec fn created(
        self,
        table_name: Seq<char>,
        columns: Seq<ColumnView>,
        result: Result<(), Seq<char>>,
        after: ProcessorView,
    ) -> bool {
        match self.database.add_error(
            table_name,
            columns,
            0,
            self.database.next_offset(),
            true,
        ) {
            Some(e) => result == Err::<(), Seq<char>>(e) && after == self,
            None => {
                &&& result is Ok
                &&& after.output == self.output
                &&& after.database == self.database.added(
                    table_name,
                    columns,
                    0,
                    self.database.next_offset(),
                    true,
                )
            },
        }
    }
}

/// The executor of statements over one catalog.
#[derive(Debug)]
pub struct Processor {
    database: DataBase,
    output: Vec<String>,
}

impl View for Processor {
    type V = ProcessorView;

    closed spec fn view(&self) -> ProcessorView {
        ProcessorView { database: self.database@, output: text_views(self.output@) }
    }
}

impl Processor {
    /// An executor over `database` that has printed nothing yet.
    pub fn new(database: DataBase) -> (processor: Self)
        ensures
            processor@ == (ProcessorView {
                database: database@,
                output: Seq::<Seq<char>>::empty(),
            }),
    {
        let processor = Processor { database, output: Vec::new() };
        assert(processor@.output =~= Seq::<Seq<char>>::empty());
        processor
    }

    /// The catalog.
    pub fn database(&self) -> (database: &DataBase)
        ensures
            database@ == self@.database,
    {
        &self.database
    }

    /// Gives up the executor for its catalog.
    pub fn into_database(self) -> (database: DataBase)
        ensures
            database@ == self@.database,
    {
        self.database
    }

    /// Hands out the lines printed since the last call, and forgets them.
    pub fn take_output(&mut self) -> (lines: Vec<String>)
        ensures
            text_views(lines@) == old(self)@.output,
            final(self)@ == (ProcessorView {
                database: old(self)@.database,
                output: Seq::<Seq<char>>::empty(),
            }),
    {
        let mut lines: Vec<String> = Vec::new();
        lines.append(&mut self.output);
        assert(text_views(lines@) =~= old(self)@.output);
        assert(self@.output =~= Seq::<Seq<char>>::empty());
        lines
    }

    /// Runs a query for `colums` on the table named `table_name`.
    pub fn handle_select_statement(&mut self, table_name: &str, colums: Vec<String>) -> (result:
        Result<(), String>)
        requires
            old(self)@.wf(),
        ensures
            old(self)@.selected(table_name@, text_views(colums@), result_view(result), final(self)@),
            final(self)@.wf(),
    {
        match self.database.find_table(table_name) {
            Some(index) => {
                let ghost shown = text_views(self.output@);
                let mut lines = self.database.print_table(index, colums);
                let ghost drawn = text_views(lines@);
                self.output.append(&mut lines);
                assert(text_views(self.output@) =~= shown + drawn);
                proof {
                    let table = old(self)@.database.tables[index as int];
                    assert(shown + drawn =~= shown + seq![
                        title_line(table.name, table.total_rows),
                    ] + table_rendering(
                        table.grid(old(self)@.database.disk, text_views(colums@)),
                    ));
                }
                Ok(())
            },
            None => Err("Table not found".to_owned()),
        }
    }

    /// Appends a row to the table named `table_name`: the values of
    /// `column_map` go to the fields they name, the other fields take the
    /// default of their type, and the identifier is fresh. The row's page
    /// and then the catalog's header are written to the backing file.
    pub fn handle_insert_statement(
        &mut self,
        table_name: &str,
        column_map: Vec<(String, String)>,
    ) -> (result: Result<(), String>)
        requires
            old(self)@.wf(),
        ensures
            old(self)@.inserted(
                table_name@,
                pair_views(column_map@),
                result_view(result),
                final(self)@,
            ),
            final(self)@.wf(),
    {
        let index = match self.database.find_table(table_name) {
            Some(index) => index,
            None => {
                return Err("Table not found".to_owned());
            },
        };
        let ghost before = self@.database;
        let ghost table = before.tables[index as int];
        let ghost disk = before.disk;
        let ghost page = table.total_rows / table.rows_per_page();
        assert(table.wf());
        match self.database.check_insert(index) {
            Ok(_) => {},
            Err(e) => {
                let mut message = "Error inserting row: ".to_owned();
                message.append(e.as_str());
                proof {
                    assert(self@.database.tables =~= before.tables.update(
                        index as int,
                        self@.database.tables[index as int],
                    ));
                    if table.total_rows >= table.capacity() {
                        assert(self@.database.tables =~= before.tables);
                        assert(message@ =~= insert_error("Table full."@));
                    } else {
                        assert(message@ =~= insert_error("Page full."@));
                    }
                }
                return Err(message);
            },
        }
        let ghost loaded = self@.database;
        proof {
            assert(loaded.tables =~= before.tables.update(
                index as int,
                table.with_page(disk, page),
            ));
            crate::table::lemma_rows_per_page(table);
            lemma_with_page_keeps_rows(table, disk, page);
        }
        let row_vector = self.database.table(index).match_columns(column_map);
        proof {
            crate::rows::lemma_matched_values_len(table.columns, pair_views(column_map@));
        }
        let row = self.database.table(index).construct_row(row_vector);
        let ghost id = choose|id: Seq<u8>|
            version_7(id) && row@ == #[trigger] row_bytes(
                table.columns,
                id,
                text_views(row_vector@),
            );
        let mut values: Vec<&[u8]> = Vec::new();
        values.push(row.as_slice());
        proof {
            assert(row_views(values@) =~= seq![row@]);
            let rows = row_views(values@);
            let current = loaded.tables[index as int];
            assert(rows.drop_first() =~= Seq::<Seq<u8>>::empty());
            assert(current.takes(disk, row@));
            assert(current.insert(disk, row@) == table.insert(disk, row@));
            assert(current.insert(disk, row@).0.takes_all(
                current.insert(disk, row@).1,
                rows.drop_first(),
            ));
            assert(current.takes_all(disk, rows));
            assert(current.insert_all(disk, rows) == current.insert(disk, row@).0.insert_all(
                current.insert(disk, row@).1,
                rows.drop_first(),
            ));
            assert(current.insert_all(disk, rows) == table.insert(disk, row@));
        }
        let _ = self.database.insert_rows(index, values);
        self.database.flush();
        proof {
            assert(self@.database.tables =~= before.tables.update(
                index as int,
                table.insert(disk, row@).0,
            ));
            assert(self@.database == old(self)@.stored(
                index as int,
                row_bytes(
                    table.columns,
                    id,
                    matched_values(table.columns, pair_views(column_map@)),
                ),
            ));
        }
        Ok(())
    }

    /// Creates an empty table named `table_name` over `columns`, after the
    /// identifier column, and writes the catalog's header.
    pub fn create_table(&mut self, table_name: String, columns: Vec<Column>) -> (result: Result<
        (),
        String,
    >)
        requires
            old(self)@.wf(),
        ensures
            old(self)@.created(
                table_name@,
                column_views(columns@),
                result_view(result),
                final(self)@,
            ),
            final(self)@.wf(),
    {
        self.database.add_table(table_name, columns, 0, None, true)
    }
}

} // verus!
