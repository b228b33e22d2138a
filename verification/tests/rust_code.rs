use mdbook_verified::rust_code::{
    hide_lines_rust, hide_lines_with_prefix, partition_rust_source, wrap_rust_main,
};

fn pair(a: &str, b: &str) -> (String, String) {
    (a.to_string(), b.to_string())
}

#[test]
fn it_partitions_rust_source() {
    assert_eq!(partition_rust_source(""), pair("", ""));
    assert_eq!(partition_rust_source("let x = 1;"), pair("", "let x = 1;"));
    assert_eq!(
        partition_rust_source("fn main()\n{ let x = 1; }\n"),
        pair("", "fn main()\n{ let x = 1; }\n")
    );
    assert_eq!(
        partition_rust_source("#![allow(foo)]"),
        pair("#![allow(foo)]", "")
    );
    assert_eq!(
        partition_rust_source("#![allow(foo)]\n"),
        pair("#![allow(foo)]\n", "")
    );
    assert_eq!(
        partition_rust_source("#![allow(foo)]\nlet x = 1;"),
        pair("#![allow(foo)]\n", "let x = 1;")
    );
    assert_eq!(
        partition_rust_source(
            "\n\
        #![allow(foo)]\n\
        \n\
        #![allow(bar)]\n\
        \n\
        let x = 1;"
        ),
        pair("\n#![allow(foo)]\n\n#![allow(bar)]\n\n", "let x = 1;")
    );
    assert_eq!(
        partition_rust_source("    // Example"),
        pair("", "    // Example")
    );
}

#[test]
fn wraps_code_without_main() {
    assert_eq!(
        wrap_rust_main("let x = 1;"),
        Some("# #![allow(unused)]\n# fn main() {\nlet x = 1;\n# }".to_string())
    );
    assert_eq!(
        wrap_rust_main("#![allow(foo)]\nlet x = 1;\n"),
        Some("# #![allow(unused)]\n#![allow(foo)]\n# fn main() {\nlet x = 1;\n# }".to_string())
    );
    assert_eq!(wrap_rust_main("fn main() {}"), None);
    assert_eq!(wrap_rust_main("quick_main!(run);"), None);
}

#[test]
fn hides_prefixed_lines() {
    let segs = hide_lines_with_prefix("~hidden\n  ~ind\nshown", "~");
    assert_eq!(
        segs,
        vec![
            ("hidden\n".to_string(), true),
            ("  ind\n".to_string(), true),
            ("shown\n".to_string(), false),
        ]
    );
}

#[test]
fn hides_rust_boring_lines() {
    let segs = hide_lines_rust("# use std;\n## keep\n#[derive]\nfn f() {}");
    assert_eq!(
        segs,
        vec![
            ("use std;\n".to_string(), true),
            ("# keep\n".to_string(), false),
            ("#[derive]\n".to_string(), false),
            ("fn f() {}".to_string(), false),
        ]
    );
    assert_eq!(hide_lines_rust("    #"), vec![("    ".to_string(), true)]);
}
