use lish::env::Env;
use lish::object::ConsList;
use lish::object::Node;
use lish::object::Symbol;
use lish::object::node_arg_string;
use lish::object::node_clone;
use lish::object::node_display;
use lish::paths::glob_split;
use lish::paths::resolve_path;
use lish::paths::tilde_expand;
use lish::strutil::str_eq;
use lish::strutil::to_lower_ascii;
use lish::strutil::to_upper_ascii;
use lish::strutil::trim_string;

#[test]
fn cons_list_appends_in_front_and_shares_the_tail() {
    let base = ConsList::new().append(Node::Number(2)).append(Node::Number(1));
    // base reads 1 2
    let v = base.to_vec();
    assert_eq!(node_display(&v[0]), "1");
    assert_eq!(node_display(&v[1]), "2");
    // building on base does not change it
    let longer = base.append(Node::Number(0));
    let v2 = longer.to_vec();
    assert_eq!(v2.len(), 3);
    assert_eq!(node_display(&v2[0]), "0");
    let again = base.to_vec();
    assert_eq!(again.len(), 2);
    assert_eq!(node_display(&again[0]), "1");
    assert_eq!(node_display(&again[1]), "2");
}

#[test]
fn cons_list_head_and_tail() {
    let l = ConsList::new().append(Node::Number(2)).append(Node::Number(1));
    assert_eq!(node_display(l.head().unwrap()), "1");
    let t = l.tail();
    assert_eq!(node_display(t.head().unwrap()), "2");
    assert!(t.tail().head().is_none());
    assert!(ConsList::new().head().is_none());
}

#[test]
fn two_appends_from_one_list_do_not_disturb_each_other() {
    let shared = ConsList::new().append(Node::Number(9));
    let a = shared.append(Node::Number(1));
    let b = shared.append(Node::Number(2));
    assert_eq!(node_display(&Node::List(a)), "(1 9)");
    assert_eq!(node_display(&Node::List(b)), "(2 9)");
    assert_eq!(node_display(&Node::List(shared)), "(9)");
}

#[test]
fn symbols_normalize_their_name() {
    let s = Symbol::new("cd");
    assert_eq!(s.name(), "CD");
    let t = Symbol::new("last-status");
    assert_eq!(t.name(), "LAST-STATUS");
}

#[test]
fn unbound_symbol_evaluates_to_its_own_name() {
    let s = Symbol::new("word");
    match s.value() {
        Node::Str(v) => assert_eq!(v, "WORD"),
        _ => panic!("expected a string"),
    }
    assert_eq!(s.to_val_string(), "WORD");
}

#[test]
fn bound_symbol_reports_its_value() {
    let mut s = Symbol::new("x");
    s.value = Some(Node::Number(5));
    assert_eq!(s.to_val_string(), "5");
    match s.value() {
        Node::Number(5) => {},
        _ => panic!("expected the bound number"),
    }
}

#[test]
fn display_quotes_strings_and_parenthesizes_lists() {
    let l = ConsList::new()
        .append(Node::Str("hi".to_string()))
        .append(Node::Symbol("ECHO".to_string()));
    let n = Node::List(l);
    assert_eq!(node_display(&n), "(ECHO \"hi\")");
    assert_eq!(node_display(&Node::Empty), "()");
    assert_eq!(node_display(&Node::Number(42)), "42");
}

#[test]
fn arg_text_drops_string_quotes() {
    assert_eq!(node_arg_string(&Node::Str("hi".to_string())), "hi");
    assert_eq!(node_arg_string(&Node::Symbol("LS".to_string())), "LS");
    assert_eq!(node_arg_string(&Node::Number(3)), "3");
}

#[test]
fn node_clone_preserves_structure() {
    let l = ConsList::new().append(Node::Number(1));
    let n = Node::List(l);
    let c = node_clone(&n);
    assert_eq!(node_display(&c), "(1)");
}

#[test]
fn environment_lookup_never_fails() {
    let mut env = Env::new();
    // a name never set anywhere resolves to a fresh unbound cell
    let id = env.get_symbol(0, "never-set");
    let sym = env.symbol_at(id);
    assert_eq!(sym.name(), "NEVER-SET");
    assert!(sym.value.is_none());
    assert!(sym.function.is_none());
}

#[test]
fn environment_binds_and_shadows() {
    let mut env = Env::new();
    let mut sym = Symbol::new("x");
    sym.value = Some(Node::Number(1));
    let id = env.set_symbol(0, sym);
    assert!(env.contains(0, "X"));
    assert!(!env.contains(0, "Y"));
    let found = env.get_symbol(0, "X");
    assert_eq!(found, id);
    // a child frame shadows without touching the outer binding
    let child = env.new_with_parent(0);
    let mut inner = Symbol::new("x");
    inner.value = Some(Node::Number(2));
    let iid = env.set_symbol(child, inner);
    assert_eq!(env.get_symbol(child, "X"), iid);
    assert_eq!(env.get_symbol(0, "X"), id);
    // the child frame inherits what it does not shadow
    let mut other = Symbol::new("z");
    other.value = Some(Node::Number(3));
    let zid = env.set_symbol(0, other);
    assert_eq!(env.get_symbol(child, "Z"), zid);
    assert!(!env.contains(child, "Z"));
}

#[test]
fn case_folding_is_ascii_only() {
    assert_eq!(to_upper_ascii("cd-9!"), "CD-9!");
    assert_eq!(to_lower_ascii("LS"), "ls");
    assert!(str_eq("abc", "abc"));
    assert!(!str_eq("abc", "abd"));
}

#[test]
fn trimming_strips_surrounding_whitespace() {
    assert_eq!(trim_string(&" \t hi there\n\r ".to_string()), "hi there");
    assert_eq!(trim_string(&"".to_string()), "");
    assert_eq!(trim_string(&" \n ".to_string()), "");
}

#[test]
fn relative_paths_resolve_against_the_working_directory() {
    assert_eq!(resolve_path("/a/b", "subdir"), "/a/b/subdir");
    assert_eq!(resolve_path("/a/b", "/x/y"), "/x/y");
    assert_eq!(resolve_path("/a/b", ".."), "/a");
    assert_eq!(resolve_path("/a/b", "../c/./d"), "/a/c/d");
    assert_eq!(resolve_path("/", ".."), "/");
    assert_eq!(resolve_path("/a", ""), "/a");
}

#[test]
fn tilde_expands_only_a_leading_tilde() {
    assert_eq!(tilde_expand("~", "/home/u"), "/home/u");
    assert_eq!(tilde_expand("~/x", "/home/u"), "/home/u/x");
    assert_eq!(tilde_expand("a~b", "/home/u"), "a~b");
    assert_eq!(tilde_expand("~user", "/home/u"), "~user");
}

#[test]
fn glob_patterns_split_at_the_first_globbing_component() {
    let (base, pat) = glob_split("/a/b/*.rs");
    assert_eq!(base, "/a/b");
    assert_eq!(pat, "*.rs");
    let (base2, pat2) = glob_split("/a/{x,y}/z");
    assert_eq!(base2, "/a");
    assert_eq!(pat2, "{x,y}/z");
    let (base3, pat3) = glob_split("src/*.rs");
    assert_eq!(base3, ".");
    assert_eq!(pat3, "src/*.rs");
    let (base4, pat4) = glob_split("/*");
    assert_eq!(base4, "/");
    assert_eq!(pat4, "*");
}
