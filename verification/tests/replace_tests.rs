use rust_format::{replace_markers, Error, Replaced};

fn run(source: &str, replace_doc_blocks: bool) -> String {
    let replaced = replace_markers(source.as_bytes(), replace_doc_blocks).unwrap();
    String::from_utf8(replaced.into_text(source.as_bytes())).unwrap()
}

#[test]
fn blank() {
    let source = "";

    let actual = replace_markers(source.as_bytes(), false).unwrap();
    assert!(matches!(actual, Replaced::Unchanged));

    let expected = source;
    assert_eq!(expected, run(source, false));
}

#[test]
fn no_replacements() {
    let source = r####"// _comment!_("comment");

/* /* nested comment */ */
        
/// This is a main function
fn main() {
    println!("hello world");
    println!(r##"hello raw world!"##);
}
_blank!_;
"####;

    let actual = replace_markers(source.as_bytes(), false).unwrap();
    assert!(matches!(actual, Replaced::Unchanged));

    let expected = source;
    assert_eq!(expected, run(source, false));
}

#[test]
fn replace_comments() {
    let source = r####"// _comment!_("comment");

/* /* nested comment */ */
_comment_!("comment 1\n\ncomment 2");
_comment_!("test");
_comment!("skip this");
/// This is a main function
fn main() {
    println!(r##"hello raw world!"##);
    _comment_!(r"");
    _comment_!();
    println!("hello \nworld");
}

   _comment_ !
( r#"This is two
comments"# )
;
_blank!_;
"####;

    let actual = run(source, false);
    let expected = r####"// _comment!_("comment");

/* /* nested comment */ */
// comment 1
//
// comment 2
// test
_comment!("skip this");
/// This is a main function
fn main() {
    println!(r##"hello raw world!"##);
    //
    //
    println!("hello \nworld");
}

   // This is two
   // comments
_blank!_;
"####;

    assert_eq!(expected, actual);
}

#[test]
fn replace_blanks() {
    let source = r####"// _blank!_(5);

/* /* nested comment */ */
_blank_!(2);
_blank!_("skip this");
#[doc = "This is a main function"]
fn main() {
    let r#test = "hello";
    println!(r"hello raw world!");
    _blank_!();
    println!("hello \nworld");
}

      _blank_
!(
2
);
_blank!_;
"####;

    let actual = run(source, false);
    let expected = r####"// _blank!_(5);

/* /* nested comment */ */


_blank!_("skip this");
#[doc = "This is a main function"]
fn main() {
    let r#test = "hello";
    println!(r"hello raw world!");

    println!("hello \nworld");
}



_blank!_;
"####;

    assert_eq!(expected, actual);
}

#[test]
fn replace_doc_blocks() {
    let source = r####"// _blank!_(5);

/* not a nested comment */
#[doc = r#" This is a main function"#]
#[doc = r#" This is two doc
 comments"#]
#[cfg(feature = "main")]
#[doc(hidden)]
fn main() {
    println!(r##"hello raw world!"##);
    #[doc = ""]
    println!("hello \nworld");
}

#    [
doc
 = 
 " this is\n\n three doc comments"
 
 ]
fn test() {
}
_blank!_;
"####;

    let actual = run(source, true);
    let expected = r####"// _blank!_(5);

/* not a nested comment */
/// This is a main function
/// This is two doc
/// comments
#[cfg(feature = "main")]
#[doc(hidden)]
fn main() {
    println!(r##"hello raw world!"##);
    ///
    println!("hello \nworld");
}

/// this is
///
/// three doc comments
fn test() {
}
_blank!_;
"####;

    assert_eq!(expected, actual);
}

#[test]
fn replace_crlf() {
    let source = "_blank_!(2);\r\n";
    let actual = run(source, false);

    let expected = "\r\n\r\n";
    assert_eq!(expected, actual);
}

#[test]
fn marker_end_after_prefix() {
    assert!(matches!(
        replace_markers("_blank_!(".as_bytes(), false),
        Err(Error::BadSourceCode(_))
    ));
}

#[test]
fn marker_param_not_string() {
    assert!(matches!(
        replace_markers("_comment_!(blah);\n".as_bytes(), false),
        Err(Error::BadSourceCode(_))
    ));
}

#[test]
fn marker_bad_suffix() {
    assert!(matches!(
        replace_markers("_comment_!(\"blah\"];\n".as_bytes(), false),
        Err(Error::BadSourceCode(_))
    ));
}

#[test]
fn doc_block_string_not_closed() {
    assert!(matches!(
        replace_markers("#[doc = \"test]\n".as_bytes(), true),
        Err(Error::BadSourceCode(_))
    ));
}
