use tinyvector::lists::{join_list, split_list};

fn strings(v: &[&str]) -> Vec<String> {
    v.iter().map(|s| s.to_string()).collect()
}

#[test]
fn join_puts_a_semicolon_between_items() {
    assert_eq!(join_list(&strings(&[".md", ".markdown", ".txt"])), ".md;.markdown;.txt");
    assert_eq!(join_list(&strings(&["one"])), "one");
    assert_eq!(join_list(&strings(&[])), "");
    assert_eq!(join_list(&strings(&["", ""])), ";");
}

#[test]
fn split_takes_the_items_apart() {
    assert_eq!(split_list(".md;.markdown;.txt"), strings(&[".md", ".markdown", ".txt"]));
    assert_eq!(split_list("one"), strings(&["one"]));
    assert_eq!(split_list(""), strings(&[""]));
    assert_eq!(split_list(";"), strings(&["", ""]));
    assert_eq!(split_list("a;;b;"), strings(&["a", "", "b", ""]));
    assert_eq!(split_list("día;ñandú"), strings(&["día", "ñandú"]));
}

#[test]
fn split_agrees_with_the_standard_split() {
    for text in ["", ";", "a", "a;b", ";a;", "website/;docs/r;x", ";;;"] {
        let expected: Vec<String> = text.split(';').map(|x| x.to_string()).collect();
        assert_eq!(split_list(text), expected);
    }
}

#[test]
fn split_undoes_join_of_items_without_semicolons() {
    let items = strings(&["website/docs", ".md", "a b"]);
    assert_eq!(split_list(&join_list(&items)), items);
}
