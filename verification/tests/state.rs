use gflags::atomic::StaticAtomicPtr;
use gflags::dispatch::Effect;
use gflags::name::Name;

/// A cell constructed with a value serves it back; a store replaces it.
#[test]
fn cell_new_store_load() {
    let mut cell: StaticAtomicPtr<u64> = StaticAtomicPtr::new(7);
    assert_eq!(*cell.load(), 7);
    cell.store(11);
    assert_eq!(*cell.load(), 11);
}

/// A null cell becomes readable once a value is published.
#[test]
fn cell_null_then_store() {
    let mut cell: StaticAtomicPtr<&'static str> = StaticAtomicPtr::null();
    cell.store("published");
    assert_eq!(*cell.load(), "published");
}

/// A defaulted flag is readable but not present; publications replace
/// the value and count occurrences, and the accessor exposes the value.
#[test]
fn flag_default_and_publications() {
    let mut flag: gflags::Flag<bool> = gflags::Flag::new(true);
    assert!(!flag.is_present());
    assert_eq!(flag.repeat_count(), 0);
    assert_eq!(*flag.get(), true);
    assert_eq!(flag.accessor().flag, true);

    flag.apply(Name::long("verbose".to_string()), &Effect::SetBool(false)).unwrap();
    assert!(flag.is_present());
    assert_eq!(flag.repeat_count(), 1);
    assert_eq!(*flag.get(), false);

    flag.apply(Name::long("verbose".to_string()), &Effect::SetBool(true)).unwrap();
    assert_eq!(flag.repeat_count(), 2);
    assert_eq!(*flag.get(), true);
}

/// A value flag parses its argument when applied, and a value that
/// does not parse leaves the cell untouched.
#[test]
fn flag_apply_parses_value() {
    let mut number: gflags::Flag<u64> = gflags::Flag::null();
    let effect = Effect::Assign(gflags::arg::RawArg::Text("42".to_string()));
    number.apply(Name::long("number".to_string()), &effect).unwrap();
    assert_eq!(*number.get(), 42);
    assert_eq!(number.repeat_count(), 1);

    let bad = Effect::Assign(gflags::arg::RawArg::Text("4x".to_string()));
    let e = number.apply(Name::long("number".to_string()), &bad).err().unwrap();
    assert_eq!(e.message(), "invalid digit found in string");
    assert_eq!(*number.get(), 42);
    assert_eq!(number.repeat_count(), 1);
}
