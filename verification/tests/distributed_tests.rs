use propagators_chirho::distributed_chirho::cell_key_chirho;

#[test]
fn test_cell_key_chirho() {
    assert_eq!(cell_key_chirho("temperature"), "cell:temperature");
    assert_eq!(
        cell_key_chirho("sensor:room1:temp"),
        "cell:sensor:room1:temp"
    );
}
