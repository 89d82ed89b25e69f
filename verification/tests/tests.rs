use instring::InString;
use instring::Intern;
use instring::Interner;
use std::borrow::Borrow;
use std::borrow::Cow;
use std::path::Path;
use std::path::PathBuf;

fn is_same(a: &InString, b: &InString) -> bool {
    std::ptr::eq(a.as_str(), b.as_str())
}

#[test]
fn str_intern() {
    let mut interner = Interner::new();
    let foo0 = "FOO".intern(&mut interner);
    let bar0 = "BAR".intern(&mut interner);
    let foo1 = "FOO".intern(&mut interner);
    let bar1 = "BAR".intern(&mut interner);
    let bar2 = "BAR".intern(&mut interner);
    let bar3 = bar2.clone(&mut interner);

    println!("foo0: '{}'", foo0.as_str());
    println!("foo1: '{}'", foo1.as_str());
    println!("bar0: '{}'", bar0.as_str());
    println!("bar1: '{}'", bar1.as_str());
    println!("bar2: '{}'", bar2.as_str());
    println!("bar3: '{}'", bar3.as_str());

    assert!(is_same(&foo0, &foo1));
    assert!(is_same(&bar0, &bar1));
    assert!(is_same(&bar0, &bar2));
    assert!(is_same(&bar0, &bar3));
}

#[test]
fn string_intern() {
    let mut interner = Interner::new();
    let foo0 = String::from("FOO").intern(&mut interner);
    let bar0 = String::from("BAR").intern(&mut interner);
    let foo1 = String::from("FOO").intern(&mut interner);
    let bar1 = String::from("BAR").intern(&mut interner);
    let bar2 = String::from("BAR").intern(&mut interner);
    let bar3 = bar2.clone(&mut interner);

    println!("foo0: '{}'", foo0.as_str());
    println!("foo1: '{}'", foo1.as_str());
    println!("bar0: '{}'", bar0.as_str());
    println!("bar1: '{}'", bar1.as_str());
    println!("bar2: '{}'", bar2.as_str());
    println!("bar3: '{}'", bar3.as_str());

    assert!(is_same(&foo0, &foo1));
    assert!(is_same(&bar0, &bar1));
    assert!(is_same(&bar0, &bar2));
    assert!(is_same(&bar0, &bar3));
}

#[test]
fn as_ref_path() {
    fn print(string: impl AsRef<Path>) {
        println!("{:?}", string.as_ref());
    }

    let mut interner = Interner::new();
    let foo = "FOO".intern(&mut interner);
    print(foo.as_str());
}

#[test]
fn as_ref_u8() {
    fn print(string: impl AsRef<[u8]>) {
        println!("{:?}", string.as_ref());
    }

    let mut interner = Interner::new();
    let foo = "FOO".intern(&mut interner);
    print(foo.as_bytes());
}

#[test]
fn as_ref_str() {
    fn print(string: impl AsRef<str>) {
        println!("{:?}", string.as_ref());
    }

    let mut interner = Interner::new();
    let foo = "FOO".intern(&mut interner);
    print(foo.as_str());
}

#[test]
fn borrow_str() {
    fn print(string: impl Borrow<str>) {
        println!("{:?}", string.borrow());
    }

    let mut interner = Interner::new();
    let foo = "FOO".intern(&mut interner);
    print(foo.as_str());
}

#[test]
fn deref_str() {
    fn print(string: &str) {
        println!("{:?}", string);
    }

    let mut interner = Interner::new();
    let foo = "FOO".intern(&mut interner);
    print(foo.as_str());
}

#[test]
fn deref_string() {
    fn print(string: &String) {
        println!("{:?}", string);
    }

    let mut interner = Interner::new();
    let foo = "FOO".intern(&mut interner);
    print(foo.as_string());
}

#[test]
fn from_cow() {
    let mut interner = Interner::new();
    let foo = Cow::Borrowed("FOO");
    let _ = InString::from_str(&mut interner, &foo);

    let foo: Cow<'_, str> = Cow::Owned(String::from("FOO"));
    let _ = InString::from(&mut interner, foo.into_owned());
}

#[test]
fn from_instring() {
    let mut interner = Interner::new();
    let foo = InString::from_str(&mut interner, "FOO");
    let _ = foo.clone(&mut interner);
}

#[test]
fn from_char() {
    let mut interner = Interner::new();
    let foo = 'F';
    let _ = InString::from_char(&mut interner, foo);
}

#[test]
fn from_box_str() {
    let mut interner = Interner::new();
    let s = String::from("FOO");
    let foo: Box<str> = s.into();
    let _ = InString::from(&mut interner, foo.into_string());
}

#[test]
fn from_mut_str() {
    let mut interner = Interner::new();
    let mut s = String::from("FOO");
    let foo = s.as_mut_str();
    let _ = InString::from_str(&mut interner, foo);
}

#[test]
fn from_str() {
    let mut interner = Interner::new();
    let s = String::from("FOO");
    let foo = s.as_str();
    let _ = InString::from_str(&mut interner, foo);
}

#[test]
fn from_string() {
    let mut interner = Interner::new();
    let foo = String::from("FOO");
    let _ = InString::from(&mut interner, foo);
}

#[test]
fn from_ref_string() {
    let mut interner = Interner::new();
    let foo = String::from("FOO");
    let _ = InString::from_str(&mut interner, &foo);
}

#[test]
fn from_str_trait() {
    let mut interner = Interner::new();
    let _ = InString::from_str(&mut interner, "FOO");
}

#[test]
fn sliece_index() {
    let foo = String::from("FOO");
    assert!(&foo[..] == "FOO");
    assert!(&foo[0..2] == "FO");
    assert!(&foo[1..3] == "OO");

    let mut interner = Interner::new();
    let foo = InString::from(&mut interner, foo);
    assert!(foo.index(0, foo.len()) == "FOO");
    assert!(foo.index(0, 2) == "FO");
    assert!(foo.index(1, 3) == "OO");
}

#[test]
fn partial_eq_cow() {
    let mut interner = Interner::new();
    let s = "FOO".intern(&mut interner);
    let foo = Cow::Borrowed("FOO");
    assert!(s.eq_str(&foo));
}

#[test]
fn partial_eq_instring() {
    let mut interner = Interner::new();
    let s = "FOO".intern(&mut interner);
    let foo = InString::from_str(&mut interner, "FOO");
    let bar = InString::from_str(&mut interner, "BAR");
    assert!(s == foo);
    assert!(s != bar);
}

#[test]
fn partial_eq_str() {
    let mut interner = Interner::new();
    let s = "FOO".intern(&mut interner);
    let foo = "FOO";
    let bar = "BAR";
    assert!(s.eq_str(foo));
    assert!(!s.eq_str(bar));
    assert!(s.eq_str(&*foo));
    assert!(!s.eq_str(&*bar));
}

#[test]
fn partial_eq_string() {
    let mut interner = Interner::new();
    let s = "FOO".intern(&mut interner);
    let foo = String::from("FOO");
    let bar = String::from("BAR");
    let foo_ref = &foo;
    let bar_ref = &bar;
    assert!(s.eq_str(&foo));
    assert!(!s.eq_str(&bar));
    assert!(s.eq_str(foo_ref));
    assert!(!s.eq_str(bar_ref));
}

#[test]
fn partial_eq_path() {
    let mut interner = Interner::new();
    let s = "FOO".intern(&mut interner);
    let foo = PathBuf::from("FOO");
    let bar = PathBuf::from("BAR");
    assert!(Path::new(s.as_str()) == foo.as_path());
    assert!(Path::new(s.as_str()) != bar.as_path());
}

#[test]
fn partial_eq_pathbuf() {
    let mut interner = Interner::new();
    let s = "FOO".intern(&mut interner);
    let foo = PathBuf::from("FOO");
    let bar = PathBuf::from("BAR");
    assert!(Path::new(s.as_str()) == foo);
    assert!(Path::new(s.as_str()) != bar);
}

#[test]
fn all() {
    let mut interner = Interner::new();
    let foo = "FOO".intern(&mut interner);
    let bar = "BAR".intern(&mut interner);

    let all = InString::all(&mut interner);

    assert!(all.len() >= 2);
    assert!(all.contains(&foo));
    assert!(all.contains(&bar));
}

#[test]
fn ref_count() {
    let mut interner = Interner::new();
    let s = "UNIQUE";

    let s0 = s.intern(&mut interner);
    println!("{}", s0.ref_count(&interner));
    assert!(s0.ref_count(&interner) == 1);

    let s1 = s.intern(&mut interner);
    assert!(s1.ref_count(&interner) == 2);

    let s2 = s.intern(&mut interner);
    assert!(s2.ref_count(&interner) == 3);

    let s3 = s.intern(&mut interner);
    assert!(s3.ref_count(&interner) == 4);

    let s4 = s.intern(&mut interner);
    assert!(s4.ref_count(&interner) == 5);
}

#[test]
fn stats() {
    let mut interner = Interner::new();
    let _foo0 = "FOO".intern(&mut interner);
    let _foo1 = "FOO".intern(&mut interner);
    let _bar0 = "BAR".intern(&mut interner);
    let _bar1 = "BAR".intern(&mut interner);

    let stats = InString::stats(&interner);

    assert!(stats.interned_strings >= 2);
    assert!(stats.interned_bytes >= 6);
    assert!(stats.deduped_strings >= 2);
    assert!(stats.deduped_bytes >= 6);
}
