use boxercrab::context::TableMapContext;
use boxercrab::mysql::{ColTypes, ColValues};
use boxercrab::codec::Cursor;

#[test]
fn test_registry_install_and_lookup() {
    let mut ctx = TableMapContext::new();
    assert!(ctx.lookup(109).is_none());
    ctx.install(109, vec![ColTypes::Long, ColTypes::VarChar(160)]);
    ctx.install(7, vec![ColTypes::Tiny]);
    let cols = ctx.lookup(109).expect("a later read for an installed id succeeds");
    assert_eq!(*cols, vec![ColTypes::Long, ColTypes::VarChar(160)]);
    // a newer table-map event for the same id overwrites
    ctx.install(109, vec![ColTypes::LongLong]);
    assert_eq!(*ctx.lookup(109).unwrap(), vec![ColTypes::LongLong]);
}

#[test]
fn test_col_type_catalog() {
    assert_eq!(ColTypes::from_u8(3), ColTypes::Long);
    assert_eq!(ColTypes::from_u8(15), ColTypes::VarChar(0));
    assert_eq!(ColTypes::Long.meta(), (3, 0));
    assert_eq!(ColTypes::VarChar(160).meta(), (15, 2));
    assert_eq!(ColTypes::NewDecimal(10, 0).meta(), (246, 2));
    let _ = ColValues::Null;
}

#[test]
fn test_parse_def() {
    // a table-map metadata block: VarChar takes a 2-byte max length
    let meta: Vec<u8> = vec![160, 0];
    let mut cur = Cursor::new(&meta);
    let (used, ty) = ColTypes::from_u8(15).parse_def(&mut cur).unwrap();
    assert_eq!(used, 2);
    assert_eq!(ty, ColTypes::VarChar(160));
    // fixed-width types take no metadata
    let mut cur = Cursor::new(&meta);
    let (used, ty) = ColTypes::from_u8(3).parse_def(&mut cur).unwrap();
    assert_eq!(used, 0);
    assert_eq!(ty, ColTypes::Long);
}
