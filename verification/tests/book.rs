use arc_lang::book::render_grammar;
use arc_lang::book::Exec;
use arc_lang::book::Grammar;

#[test]
fn grammar_block_is_marked_up() {
    let html = render_grammar("Expr ::= \"if\" [Expr]\n", "expr").unwrap();
    assert_eq!(
        html,
        "<pre><code><a id=\"Expr\" href=\"expr.html#Expr\">Expr</a> ::= <b>if</b> <a href=\"Expr.html#Expr\">Expr</a></code></pre>"
    );
}

#[test]
fn grammar_comments_and_local_nonterminals() {
    let html = render_grammar("  | [[Name]] # a name\n", "items").unwrap();
    assert_eq!(
        html,
        "<pre><code>| <a href=\"items.html#Name\">Name</a> <i style=\"color:gray\">a name</i></code></pre>"
    );
}

#[test]
fn grammar_chapter_replaces_fenced_blocks() {
    let g = Grammar::new();
    let out = g
        .run_chapter("Intro\n```grammar\nUnit ::= \"()\"\n```\nEnd", "unit")
        .unwrap();
    assert_eq!(
        out,
        "Intro\n<pre><code><a id=\"Unit\" href=\"unit.html#Unit\">Unit</a> ::= <b>()</b></code></pre>\nEnd"
    );
}

#[test]
fn grammar_chapter_keeps_text_between_blocks() {
    let g = Grammar::new();
    let out = g
        .run_chapter("a```grammar\nX ::= \"x\"\n```b```grammar\nY ::= \"y\"\n```c", "ch")
        .unwrap();
    assert_eq!(
        out,
        "a<pre><code><a id=\"X\" href=\"ch.html#X\">X</a> ::= <b>x</b></code></pre>b<pre><code><a id=\"Y\" href=\"ch.html#Y\">Y</a> ::= <b>y</b></code></pre>c"
    );
    assert_eq!(g.run_chapter("no blocks here", "ch").unwrap(), "no blocks here");
    assert_eq!(g.run_chapter("", "ch").unwrap(), "");
}

#[test]
fn exec_commands_and_splice() {
    let e = Exec::new();
    let (gaps, commands) = e.commands("a{{ #exec echo hi }}b{{#exec ls}}c").unwrap();
    assert_eq!(gaps, vec!["a".to_string(), "b".to_string(), "c".to_string()]);
    assert_eq!(commands, vec![Some("echo hi ".to_string()), Some("ls".to_string())]);
    let out = e.splice(&gaps, &vec!["HI".to_string(), "LS".to_string()]);
    assert_eq!(out, "aHIbLSc");
    let (gaps, commands) = e.commands("plain").unwrap();
    assert_eq!(gaps, vec!["plain".to_string()]);
    assert!(commands.is_empty());
    assert_eq!(e.splice(&gaps, &Vec::new()), "plain");
}
