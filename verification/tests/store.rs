use adof_core::database::{add_files_to_database, get_copied_file_path_by_key, DataTable};
use adof_core::errors::ToolError;

#[test]
fn record_then_lookup_returns_copied_path() {
    let mut table = DataTable::new();
    add_files_to_database(&mut table, "/home/user/.bashrc", "/home/user/.adof/.bashrc");
    let found = get_copied_file_path_by_key(&table, "/home/user/.bashrc");
    assert_eq!(found, Ok(String::from("/home/user/.adof/.bashrc")));
}

#[test]
fn first_write_wins_on_duplicate_key() {
    let mut table = DataTable::new();
    add_files_to_database(&mut table, "/home/user/.vimrc", "/copies/.vimrc");
    add_files_to_database(&mut table, "/home/user/.vimrc", "/elsewhere/.vimrc");
    let found = get_copied_file_path_by_key(&table, "/home/user/.vimrc");
    assert_eq!(found, Ok(String::from("/copies/.vimrc")));
}

#[test]
fn lookup_of_never_inserted_key_is_not_found() {
    let mut table = DataTable::new();
    add_files_to_database(&mut table, "/home/user/.gitconfig", "/copies/.gitconfig");
    let missing = get_copied_file_path_by_key(&table, "/home/user/.zshrc");
    assert_eq!(missing, Err(ToolError::NotFoundError));
}

#[test]
fn lookup_in_empty_store_is_not_found() {
    let table = DataTable::new();
    let missing = get_copied_file_path_by_key(&table, "/home/user/.bashrc");
    assert_eq!(missing, Err(ToolError::NotFoundError));
}

#[test]
fn distinct_keys_are_kept_apart() {
    let mut table = DataTable::new();
    add_files_to_database(&mut table, "a", "1");
    add_files_to_database(&mut table, "b", "2");
    add_files_to_database(&mut table, "c", "3");
    assert_eq!(get_copied_file_path_by_key(&table, "b"), Ok(String::from("2")));
    assert_eq!(get_copied_file_path_by_key(&table, "a"), Ok(String::from("1")));
    assert_eq!(get_copied_file_path_by_key(&table, "c"), Ok(String::from("3")));
}
