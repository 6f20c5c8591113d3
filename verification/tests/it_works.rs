use cute_string::cute_string::CuteString;
use cute_string::cute_string::MiniString;

#[test]
fn it_works() {
    let len1 = std::mem::size_of::<CuteString>();
    let len2 = std::mem::size_of::<MiniString>();

    println!("len1: {}, len2: {}", len1, len2);

    let s1: CuteString = "Hello Rust".into();
    let s2: CuteString = "这是一个超过了三十个字节的很长很长的字符串".into();

    println!("s1: {:?}, s2: {:?}", &*s1, &*s2);

    println!(
        "s1: {}({} bytes, {} chars), s2: {}({} bytes, {} chars)",
        &*s1,
        s1.len(),
        s1.chars().count(),
        &*s2,
        s2.len(),
        s2.chars().count()
    );

    // every method of `&str` is at hand through `Deref`
    assert!(s1.ends_with("Rust"));
    assert!(s2.starts_with('这'));

    let s = String::from("这是一个超过了三十个字节的很长很长的字符串");
    println!("s: {:p}", &*s);
    // converting from an owned `String` copies the text once more
    let s3: CuteString = s.into();
    println!("s3: {:p}", &*s3);

    let mut s4: CuteString = "Hello Rust! ".into();
    println!("s4: {:?}", &*s4);
    s4.push_str("这是一个超过了三十个字节的很长很长的字符串");
    println!("s4: {:?}", &*s4);
}
