use rawzip::crc::gen_crc_table;
use rawzip::crc32;

#[test]
fn test_crc() {
    let table = gen_crc_table();
    assert_eq!(table[0][0], 0x0000_0000);
    assert_eq!(table[0][1], 0x77073096);
    assert_eq!(table[0][2], 0xee0e612c);
    assert_eq!(table[1][1], 0x191B3141);
    assert_eq!(table[1][2], 0x32366282);

    let abc = b"EU4txt\nchecksum=\"ced5411e2d4a5ec724595c2c4f1b7347\"";
    assert_eq!(crc32(abc), 1702863696);
}
