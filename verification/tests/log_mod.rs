use bpftrace_ls::log_mod::{
    is_verbose, name_mask, parse_log_mask, parse_verbose_level, Logger, BTFRD, COMPL, DEFIN, DIAGN, HOVER,
    NOTIF, PARSE, PROTO,
};

#[test]
fn categories_are_single_bits() {
    assert_eq!(
        [PROTO, DIAGN, COMPL, NOTIF, HOVER, BTFRD, PARSE, DEFIN],
        [1, 2, 4, 8, 16, 32, 64, 128]
    );
}

#[test]
fn mask_defaults_to_protocol_messages() {
    assert_eq!(parse_log_mask(None), PROTO);
    assert_eq!(parse_log_mask(Some("")), PROTO);
    assert_eq!(parse_log_mask(Some("0")), PROTO);
    assert_eq!(parse_log_mask(Some("nothing")), PROTO);
    assert_eq!(parse_log_mask(Some("0xzz")), PROTO);
}

#[test]
fn mask_as_numbers() {
    assert_eq!(parse_log_mask(Some("6")), DIAGN | COMPL);
    assert_eq!(parse_log_mask(Some("+6")), DIAGN | COMPL);
    assert_eq!(parse_log_mask(Some("0x82")), DIAGN | DEFIN);
    assert_eq!(parse_log_mask(Some("0xff")), 255);
}

#[test]
fn mask_as_names() {
    assert_eq!(parse_log_mask(Some("diagn")), DIAGN);
    assert_eq!(parse_log_mask(Some("proto, Notif ,HOVER")), PROTO | NOTIF | HOVER);
    assert_eq!(parse_log_mask(Some("btfrd,unknown,parse")), BTFRD | PARSE);
}

#[test]
fn verbose_level() {
    assert_eq!(parse_verbose_level(None), 0);
    assert_eq!(parse_verbose_level(Some("2")), 2);
    assert_eq!(parse_verbose_level(Some("yes")), 0);
    assert_eq!(parse_verbose_level(Some("4294967296")), 0);
}

#[test]
fn logger_filters_by_mask() {
    let l = Logger::new(PROTO | DIAGN, 0);
    assert!(l.accepts(DIAGN));
    assert!(!l.accepts(COMPL));
    assert!(!is_verbose(Some(&l)));
    assert!(is_verbose(Some(&Logger::new(PROTO, 1))));
    assert!(!is_verbose(None));
}

#[test]
fn category_of_each_name() {
    let names = ["PROTO", "DIAGN", "COMPL", "NOTIF", "HOVER", "BTFRD", "PARSE", "DEFIN"];
    let masks = [PROTO, DIAGN, COMPL, NOTIF, HOVER, BTFRD, PARSE, DEFIN];
    for (n, m) in names.iter().zip(masks.iter()) {
        assert_eq!(name_mask(&n.to_string()), *m);
    }
    assert_eq!(name_mask(&"proto".to_string()), 0);
    assert_eq!(name_mask(&"REFER".to_string()), 0);
}
