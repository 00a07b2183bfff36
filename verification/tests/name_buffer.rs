use amp::modes::NameBuffer;
use std::path::PathBuf;

#[test]
fn get_path_reads_the_input_as_a_path() {
    let mut buffer = NameBuffer::new(String::from("src/lib"));
    buffer.push_char('.');
    buffer.push_char('r');
    buffer.push_char('s');
    assert_eq!(buffer.get_path(), PathBuf::from("src/lib.rs"));
}
