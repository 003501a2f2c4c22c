use minidb::database::DataBase;
use minidb::disk::{first_difference, Disk};
use minidb::meta::{read_column, read_columns, read_name, read_table};
use minidb::processor::Processor;
use minidb::table::{Column, ColumnType, DataType, Table};

fn field(name: &str, data_type: DataType) -> Column {
    let size = match data_type {
        DataType::INT => 4,
        DataType::STRING => 200,
        DataType::UUID => 16,
    };
    Column::new(name.to_string(), size, ColumnType::FIELD, data_type)
}

fn pairs(items: &[(&str, &str)]) -> Vec<(String, String)> {
    items.iter().map(|(k, v)| (k.to_string(), v.to_string())).collect()
}

fn name32(name: &str) -> Vec<u8> {
    let mut field = name.as_bytes().to_vec();
    field.resize(32, 0);
    field
}

#[test]
fn a_fresh_file_holds_no_table() {
    let db = DataBase::new(Disk::new(Vec::new())).unwrap();
    assert_eq!(db.num_tables(), 0);
    assert!(db.tables().is_empty());
    assert_eq!(db.next_offset(), 4096);
    assert!(db.disk().bytes().is_empty());
}

#[test]
fn table_entry_is_laid_out_as_documented() {
    let table = Table::new(
        "users".to_string(),
        vec![field("name", DataType::STRING), field("age", DataType::INT)],
        258,
        0x0102030405,
    );
    let meta = table.get_table_meta();
    let mut expected = name32("users");
    expected.push(3);
    expected.extend_from_slice(&[2, 1]);
    expected.extend_from_slice(&[5, 4, 3, 2, 1, 0, 0, 0]);
    expected.extend_from_slice(&name32("id"));
    expected.push(0);
    expected.extend_from_slice(&name32("name"));
    expected.push(1);
    expected.extend_from_slice(&name32("age"));
    expected.push(2);
    assert_eq!(meta, expected);
    assert_eq!(meta.len(), 43 + 33 * 3);
}

#[test]
fn a_long_name_is_cut_to_32_bytes_in_the_entry() {
    let long = "abcdefghijklmnopqrstuvwxyz0123456789";
    let table = Table::new(long.to_string(), vec![], 0, 4096);
    let meta = table.get_table_meta();
    assert_eq!(&meta[..32], &long.as_bytes()[..32]);
    assert_eq!(read_name(&meta, 0), long[..32].to_string());
}

#[test]
fn every_type_tag_reads_back_as_its_column() {
    let table = Table::new(
        "t".to_string(),
        vec![field("s", DataType::STRING), field("n", DataType::INT)],
        0,
        4096,
    );
    let meta = table.get_table_meta();
    let read = read_columns(&meta, 43, 3).unwrap();
    assert_eq!(read.len(), 3);
    for (stored, column) in read.iter().zip(table.columns().iter()) {
        assert_eq!(stored.name, column.name);
        assert_eq!(stored.size, column.size);
        assert_eq!(stored.col_type, column.col_type);
        assert_eq!(stored.data_type, column.data_type);
    }
    let first = read_column(&meta, 43).unwrap();
    assert_eq!(first.name, "id");
    assert_eq!(first.size, 16);
    assert_eq!(first.col_type, ColumnType::ID);
    assert_eq!(first.data_type, DataType::UUID);
}

#[test]
fn an_unknown_type_tag_is_refused() {
    let mut entry = name32("c");
    entry.push(3);
    assert_eq!(read_column(&entry, 0).err(), Some("Invalid column type".to_string()));

    let mut header = vec![0u8; 4096];
    header[0] = 1;
    header[1..33].copy_from_slice(&name32("t"));
    header[33] = 1;
    header[44..76].copy_from_slice(&name32("c"));
    header[76] = 9;
    assert_eq!(
        DataBase::new(Disk::new(header)).err(),
        Some("Invalid column type".to_string())
    );
}

#[test]
fn an_entry_that_runs_past_the_header_is_refused() {
    let mut header = vec![0u8; 4096];
    // One table of 255 columns: 43 + 33 * 255 bytes do not fit in 4095.
    header[0] = 1;
    header[33] = 255;
    assert_eq!(DataBase::new(Disk::new(header)).err(), Some("Invalid metadata".to_string()));

    let short = vec![0u8; 40];
    assert_eq!(read_table(&short, 0).err(), Some("Invalid metadata".to_string()));
    let mut entry = name32("t");
    entry.push(2);
    entry.extend_from_slice(&[0; 10]);
    entry.extend_from_slice(&name32("a"));
    entry.push(0);
    assert_eq!(read_table(&entry, 0).err(), Some("Invalid metadata".to_string()));
}

#[test]
fn an_entry_that_gives_no_table_is_refused() {
    let mut header = vec![0u8; 4096];
    header[0] = 1;
    header[1..33].copy_from_slice(&name32("t"));
    header[33] = 2;
    // A field first and the identifier second.
    header[44..76].copy_from_slice(&name32("a"));
    header[76] = 2;
    header[77..109].copy_from_slice(&name32("id"));
    header[109] = 0;
    assert_eq!(
        DataBase::new(Disk::new(header)).err(),
        Some("Invalid table definition".to_string())
    );
}

#[test]
fn an_entry_with_its_rows_inside_the_header_is_refused() {
    // An entry of zeros puts the rows of its table at offset 0.
    let mut header = vec![0u8; 4096];
    header[0] = 1;
    assert_eq!(
        DataBase::new(Disk::new(header)).err(),
        Some("Invalid table definition".to_string())
    );
}

#[test]
fn create_writes_the_header() {
    let mut processor = Processor::new(DataBase::new(Disk::new(Vec::new())).unwrap());
    assert_eq!(
        processor.create_table("t".to_string(), vec![field("k", DataType::STRING)]),
        Ok(())
    );
    let db = processor.into_database();
    assert_eq!(db.num_tables(), 1);
    let bytes = db.disk().bytes().clone();
    assert_eq!(bytes.len(), 4096);
    assert_eq!(bytes[0], 1);
    assert_eq!(&bytes[1..33], &name32("t")[..]);
    assert_eq!(bytes[33], 2);
    assert_eq!(&bytes[34..36], &[0, 0]);
    assert_eq!(&bytes[36..44], &4096u64.to_le_bytes());
    assert_eq!(bytes[76], 0);
    assert_eq!(&bytes[77..109], &name32("k")[..]);
    assert_eq!(bytes[109], 1);
    assert!(bytes[110..].iter().all(|b| *b == 0));
}

#[test]
fn reopening_keeps_tables_and_schemas() {
    let mut db = DataBase::new(Disk::new(Vec::new())).unwrap();
    assert_eq!(
        db.add_table(
            "users".to_string(),
            vec![field("name", DataType::STRING), field("age", DataType::INT)],
            0,
            None,
            true
        ),
        Ok(())
    );
    assert_eq!(
        db.add_table("logs".to_string(), vec![field("line", DataType::STRING)], 0, None, true),
        Ok(())
    );
    let image = db.into_disk().bytes().clone();
    let reopened = DataBase::new(Disk::new(image)).unwrap();
    assert_eq!(reopened.num_tables(), 2);
    assert_eq!(reopened.tables().len(), 2);
    let users = &reopened.tables()[0];
    assert_eq!(users.name(), "users");
    let shape: Vec<(String, usize, ColumnType, DataType)> = users
        .columns()
        .iter()
        .map(|c| (c.name.clone(), c.size, c.col_type, c.data_type))
        .collect();
    assert_eq!(
        shape,
        vec![
            ("id".to_string(), 16, ColumnType::ID, DataType::UUID),
            ("name".to_string(), 200, ColumnType::FIELD, DataType::STRING),
            ("age".to_string(), 4, ColumnType::FIELD, DataType::INT),
        ]
    );
    assert_eq!(reopened.tables()[1].name(), "logs");
    assert_eq!(reopened.find_table("logs"), Some(1));
    assert_eq!(reopened.find_table("nosuch"), None);
}

#[test]
fn reopening_after_a_flush_returns_the_rows() {
    let mut processor = Processor::new(DataBase::new(Disk::new(Vec::new())).unwrap());
    assert_eq!(
        processor.create_table("t".to_string(), vec![field("k", DataType::STRING)]),
        Ok(())
    );
    assert_eq!(processor.handle_insert_statement("t", pairs(&[("k", "hello")])), Ok(()));
    let mut db = processor.into_database();
    let session = db.select_rows(0, &vec!["*".to_string()]);
    db.flush();
    let image = db.into_disk().bytes().clone();

    let mut reopened = DataBase::new(Disk::new(image)).unwrap();
    assert_eq!(reopened.tables()[0].total_rows(), 1);
    let grid = reopened.select_rows(0, &vec!["*".to_string()]);
    assert_eq!(grid, session);
    assert_eq!(grid[1][1], "hello");
}

#[test]
fn reopening_after_an_insert_returns_the_row() {
    let mut processor = Processor::new(DataBase::new(Disk::new(Vec::new())).unwrap());
    assert_eq!(
        processor.create_table("t".to_string(), vec![field("k", DataType::STRING)]),
        Ok(())
    );
    assert_eq!(processor.handle_insert_statement("t", pairs(&[("k", "hello")])), Ok(()));
    let mut db = processor.into_database();
    let session = db.select_rows(0, &vec!["*".to_string()]);
    let image = db.into_disk().bytes().clone();
    assert_eq!(image.len(), 4096 + 216);
    assert_eq!(&image[4096 + 16..4096 + 21], b"hello");
    // The header holds the new row count.
    assert_eq!(&image[34..36], &[1, 0]);

    let mut reopened = DataBase::new(Disk::new(image)).unwrap();
    assert_eq!(reopened.tables()[0].total_rows(), 1);
    let grid = reopened.select_rows(0, &vec!["*".to_string()]);
    assert_eq!(grid.len(), 2);
    assert_eq!(grid, session);
    assert_eq!(grid[1][1], "hello");
}

#[test]
fn row_counts_of_all_tables_survive_reopening() {
    let mut processor = Processor::new(DataBase::new(Disk::new(Vec::new())).unwrap());
    assert_eq!(processor.create_table("a".to_string(), vec![field("x", DataType::INT)]), Ok(()));
    for _ in 0..300 {
        assert_eq!(processor.handle_insert_statement("a", pairs(&[("x", "v")])), Ok(()));
    }
    assert_eq!(processor.create_table("b".to_string(), vec![field("y", DataType::STRING)]), Ok(()));
    for _ in 0..3 {
        assert_eq!(processor.handle_insert_statement("b", pairs(&[("y", "w")])), Ok(()));
    }
    assert_eq!(processor.handle_select_statement("a", vec!["x".to_string()]), Ok(()));
    let image = processor.into_database().into_disk().bytes().clone();
    let reopened = DataBase::new(Disk::new(image)).unwrap();
    assert_eq!(reopened.num_tables(), 2);
    assert_eq!(reopened.tables()[0].name(), "a");
    assert_eq!(reopened.tables()[0].total_rows(), 300);
    assert_eq!(reopened.tables()[1].name(), "b");
    assert_eq!(reopened.tables()[1].total_rows(), 3);
}

#[test]
fn a_table_of_the_same_name_takes_the_place_of_the_first() {
    let mut db = DataBase::new(Disk::new(Vec::new())).unwrap();
    assert_eq!(db.add_table("t".to_string(), vec![field("a", DataType::INT)], 0, None, false), Ok(()));
    assert_eq!(db.add_table("u".to_string(), vec![], 0, None, false), Ok(()));
    assert_eq!(db.add_table("t".to_string(), vec![field("b", DataType::STRING)], 0, None, false), Ok(()));
    assert_eq!(db.num_tables(), 2);
    assert_eq!(db.tables().len(), 2);
    assert_eq!(db.tables()[0].columns()[1].name, "b");
    assert!(db.disk().bytes().is_empty());
}

#[test]
fn the_next_table_goes_after_the_pages_set_aside() {
    let mut db = DataBase::new(Disk::new(Vec::new())).unwrap();
    assert_eq!(db.add_table("a".to_string(), vec![], 0, None, false), Ok(()));
    assert_eq!(db.next_offset(), 4096);
    assert_eq!(db.add_table("b".to_string(), vec![], 1, None, false), Ok(()));
    assert_eq!(db.tables()[1].start_offset(), 4096);
    assert_eq!(db.next_offset(), 8192);
    assert_eq!(db.add_table("c".to_string(), vec![], 4097, None, false), Ok(()));
    assert_eq!(db.tables()[2].start_offset(), 8192);
    assert_eq!(db.next_offset(), 16384);
    assert_eq!(db.add_table("d".to_string(), vec![], 0, Some(12345), false), Ok(()));
    assert_eq!(db.tables()[3].start_offset(), 12345);
}

#[test]
fn add_table_refuses_what_makes_no_table() {
    let mut db = DataBase::new(Disk::new(Vec::new())).unwrap();
    let wide: Vec<Column> = (0..21).map(|_| field("s", DataType::STRING)).collect();
    assert_eq!(
        db.add_table("wide".to_string(), wide, 0, None, true),
        Err("Invalid table definition".to_string())
    );
    assert_eq!(db.num_tables(), 0);
    assert!(db.tables().is_empty());
    assert!(db.disk().bytes().is_empty());
}

#[test]
fn the_header_has_room_for_so_many_entries() {
    let mut db = DataBase::new(Disk::new(Vec::new())).unwrap();
    // An entry of a table of 1 + 121 columns takes 43 + 33 * 122 = 4069 bytes.
    let columns: Vec<Column> = (0..121).map(|_| field("n", DataType::INT)).collect();
    assert_eq!(db.add_table("big".to_string(), columns, 0, None, true), Ok(()));
    assert_eq!(
        db.add_table("more".to_string(), vec![], 0, None, true),
        Err("Metadata full".to_string())
    );
    assert_eq!(db.num_tables(), 1);
    // The same name takes the place of the entry, so it fits.
    assert_eq!(db.add_table("big".to_string(), vec![], 0, None, true), Ok(()));
    assert_eq!(db.num_tables(), 1);
    // Without a flush the header has no more room either.
    let columns: Vec<Column> = (0..121).map(|_| field("n", DataType::INT)).collect();
    assert_eq!(
        db.add_table("wide".to_string(), columns, 0, None, false),
        Err("Metadata full".to_string())
    );
}

#[test]
fn the_header_holds_53_tables_of_one_column() {
    let mut db = DataBase::new(Disk::new(Vec::new())).unwrap();
    // An entry of a table of one column takes 76 bytes; 53 of them fit in 4095.
    for i in 0..53 {
        assert_eq!(db.add_table(format!("t{}", i), vec![], 0, None, true), Ok(()));
    }
    assert_eq!(db.num_tables(), 53);
    assert_eq!(
        db.add_table("last".to_string(), vec![], 0, None, true),
        Err("Metadata full".to_string())
    );
    assert_eq!(db.add_table("t7".to_string(), vec![], 0, None, true), Ok(()));
    assert_eq!(db.num_tables(), 53);
    let image = db.into_disk().bytes().clone();
    let reopened = DataBase::new(Disk::new(image)).unwrap();
    assert_eq!(reopened.num_tables(), 53);
    assert_eq!(reopened.tables()[52].name(), "t52");
}

#[test]
fn creating_a_table_twice_keeps_the_file_readable() {
    let mut processor = Processor::new(DataBase::new(Disk::new(Vec::new())).unwrap());
    assert_eq!(processor.create_table("t".to_string(), vec![field("a", DataType::INT)]), Ok(()));
    assert_eq!(processor.create_table("t".to_string(), vec![field("b", DataType::INT)]), Ok(()));
    let image = processor.into_database().into_disk().bytes().clone();
    assert_eq!(image[0], 1);
    let reopened = DataBase::new(Disk::new(image)).unwrap();
    assert_eq!(reopened.num_tables(), 1);
    assert_eq!(reopened.tables().len(), 1);
    assert_eq!(reopened.tables()[0].columns()[1].name, "b");
}

#[test]
fn disk_reads_and_writes_like_a_file() {
    let mut disk = Disk::new(vec![1, 2, 3]);
    assert_eq!(disk.len(), 3);
    assert_eq!(disk.read_at(1, 5), vec![2, 3]);
    assert_eq!(disk.read_at(0, 2), vec![1, 2]);
    assert_eq!(disk.read_at(3, 5), Vec::<u8>::new());
    assert_eq!(disk.read_at(1, 0), Vec::<u8>::new());
    disk.write_at(5, &[9, 9]);
    assert_eq!(disk.bytes(), &vec![1, 2, 3, 0, 0, 9, 9]);
    disk.write_at(1, &[7]);
    assert_eq!(disk.bytes(), &vec![1, 7, 3, 0, 0, 9, 9]);
    disk.write_at(100, &[]);
    assert_eq!(disk.len(), 7);
}

#[test]
fn first_difference_finds_where_to_write() {
    assert_eq!(first_difference(&[1, 2, 3], &[1, 2, 3]), 3);
    assert_eq!(first_difference(&[1, 2, 3], &[1, 9, 3, 4]), 1);
    assert_eq!(first_difference(&[1, 2], &[1, 2, 3]), 2);
    assert_eq!(first_difference(&[], &[5]), 0);
    assert_eq!(first_difference(&[7], &[]), 0);
    let saved = vec![1u8, 2, 3];
    let image = vec![1u8, 2, 8, 9];
    let mut disk = Disk::new(saved.clone());
    let from = first_difference(&saved, &image);
    disk.write_at(from, &image[from..]);
    assert_eq!(disk.bytes(), &image);
}
