use static_str::{static_str, InternTable, StaticStr};

#[test]
fn it_works() {
    let mut t = InternTable::new();
    let a = static_str(&mut t, "a");
    let b = static_str(&mut t, "b");
    let c = static_str(&mut t, "c");
    let d = static_str(&mut t, "d");
    assert_eq!(t.get(a), "a");
    assert_eq!(t.get(b), "b");
    assert_eq!(t.get(c), "c");
    assert_eq!(t.get(d), "d");
}

#[test]
fn identity_equal_content_equal_handle() {
    let mut t = InternTable::new();
    let h1 = static_str(&mut t, "hello");
    let h2 = static_str(&mut t, "hello");
    assert_eq!(h1, h2);
}

#[test]
fn distinct_content_distinct_handles() {
    let mut t = InternTable::new();
    let h1 = static_str(&mut t, "x");
    let h2 = static_str(&mut t, "y");
    assert_ne!(h1, h2);
}

#[test]
fn idempotent_growth() {
    let mut t = InternTable::new();
    let mut i: usize = 0;
    while i < 5 {
        static_str(&mut t, "again");
        i += 1;
    }
    assert_eq!(t.len(), 1);
}

#[test]
fn content_preserved_exactly() {
    let mut t = InternTable::new();
    let e = static_str(&mut t, "");
    let n = static_str(&mut t, "a\0b");
    let u = static_str(&mut t, "h\u{e9}llo \u{3ba}\u{3cc}\u{3c3}\u{3bc}\u{3b5}");
    assert_eq!(t.get(e), "");
    assert_eq!(t.get(n), "a\0b");
    assert_eq!(t.get(u), "h\u{e9}llo \u{3ba}\u{3cc}\u{3c3}\u{3bc}\u{3b5}");
}

#[test]
fn isolation_between_tables() {
    let mut ta = InternTable::new();
    let mut tb = InternTable::new();
    static_str(&mut ta, "filler");
    let ha = static_str(&mut ta, "x");
    let hb = static_str(&mut tb, "x");
    assert_ne!(ha, hb);
    assert_eq!(ta.get(ha), tb.get(hb));
    assert_eq!(ta.get(ha), "x");
}

#[test]
fn scenario_fresh_table_then_repeat() {
    let mut t = InternTable::new();
    let a = static_str(&mut t, "a");
    let b = static_str(&mut t, "b");
    let c = static_str(&mut t, "c");
    let d = static_str(&mut t, "d");
    assert_ne!(a, b);
    assert_ne!(a, c);
    assert_ne!(a, d);
    assert_ne!(b, c);
    assert_ne!(b, d);
    assert_ne!(c, d);
    assert_eq!(t.get(a), "a");
    assert_eq!(t.get(b), "b");
    assert_eq!(t.get(c), "c");
    assert_eq!(t.get(d), "d");
    assert_eq!(t.len(), 4);
    let a2 = static_str(&mut t, "a");
    assert_eq!(a2, a);
    assert_eq!(t.len(), 4);
}

#[test]
fn handle_new_is_interning() {
    let mut t = InternTable::new();
    let h1 = StaticStr::new(&mut t, "shared");
    let h2 = StaticStr::new(&mut t, "shared");
    let h3 = StaticStr::new(&mut t, "other");
    assert_eq!(h1, h2);
    assert_ne!(h1, h3);
    assert_eq!(h1.content(&t), "shared");
    assert_eq!(h3.content(&t), "other");
    assert_eq!(t.len(), 2);
    assert_eq!(h1.id(), static_str(&mut t, "shared"));
}

#[test]
fn codec_round_trip() {
    let mut t = InternTable::new();
    let h = StaticStr::new(&mut t, "wire value");
    let text = h.encode(&t);
    assert_eq!(text, "wire value");
    let back = StaticStr::decode(&mut t, text.as_str());
    assert_eq!(back, h);
    assert_eq!(back.content(&t), "wire value");
    assert_eq!(t.len(), 1);
}

#[test]
fn decode_fresh_value_interns_it() {
    let mut t = InternTable::new();
    static_str(&mut t, "already here");
    let h = StaticStr::decode(&mut t, "new on the wire");
    assert_eq!(h.content(&t), "new on the wire");
    assert_eq!(t.len(), 2);
    let again = StaticStr::new(&mut t, "new on the wire");
    assert_eq!(again, h);
    assert_eq!(t.len(), 2);
}
