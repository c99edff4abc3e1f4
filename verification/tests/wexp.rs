use compyler::Wexp;

#[test]
fn display_atom() {
    let w = Wexp::Atom("hallo".to_owned());
    assert_eq!(w.to_string(), "hallo");
}

#[test]
fn display_empty_vec() {
    let w = Wexp::List(vec![]);
    assert_eq!(w.to_string(), "()");
}

#[test]
fn display_list() {
    let w = Wexp::List(vec![
        Wexp::Atom("hmm".to_owned()),
        Wexp::List(vec![Wexp::Atom("??!".to_owned())]),
    ]);
    assert_eq!(w.to_string(), "(hmm (??!))");
}

fn atom(word: &str) -> Wexp {
    Wexp::Atom(word.to_owned())
}

#[test]
fn display_nested_lists() {
    let w = Wexp::List(vec![
        Wexp::List(vec![]),
        Wexp::List(vec![atom("a"), Wexp::List(vec![atom("b"), atom("c")])]),
        atom("d"),
    ]);
    assert_eq!(w.to_string(), "(() (a (b c)) d)");
}

#[test]
fn atom_spells_its_word() {
    assert_eq!(Wexp::atom("i32.add"), atom("i32.add"));
    assert_eq!(Wexp::atom("\"host\"").to_string(), "\"host\"");
}

#[test]
fn render_into_appends() {
    let mut out = "x".to_owned();
    Wexp::List(vec![atom("a"), atom("b")]).render_into(&mut out);
    atom("y").render_into(&mut out);
    assert_eq!(out, "x(a b)y");
}

#[test]
fn different_trees_of_plain_words_render_differently() {
    let trees = vec![
        atom("a"),
        atom("ab"),
        Wexp::List(vec![]),
        Wexp::List(vec![atom("a")]),
        Wexp::List(vec![atom("a"), atom("b")]),
        Wexp::List(vec![atom("ab")]),
        Wexp::List(vec![Wexp::List(vec![atom("a")]), atom("b")]),
        Wexp::List(vec![atom("a"), Wexp::List(vec![atom("b")])]),
        Wexp::List(vec![Wexp::List(vec![atom("a"), atom("b")])]),
        Wexp::List(vec![Wexp::List(vec![]), Wexp::List(vec![])]),
        Wexp::List(vec![Wexp::List(vec![Wexp::List(vec![])])]),
    ];
    for (i, a) in trees.iter().enumerate() {
        for (j, b) in trees.iter().enumerate() {
            assert_eq!(a.to_string() == b.to_string(), i == j);
        }
    }
}

#[test]
fn words_with_spaces_or_parentheses_blur_the_shape() {
    let one = Wexp::List(vec![atom("a b")]);
    let two = Wexp::List(vec![atom("a"), atom("b")]);
    assert_ne!(one, two);
    assert_eq!(one.to_string(), two.to_string());
    let empty_word = Wexp::List(vec![atom("")]);
    assert_eq!(empty_word.to_string(), Wexp::List(vec![]).to_string());
}
