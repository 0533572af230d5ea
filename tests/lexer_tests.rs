use rshell::lexer::{InputLexer, InputToken};

fn ident(s: &str) -> InputToken {
    InputToken::Identifier(s.to_string())
}

fn lex(s: &str) -> Vec<InputToken> {
    InputLexer::new(s).tokens()
}

#[test]
fn tokenizes_pipeline_with_redirect_and_background() {
    assert_eq!(
        lex("ls -la | grep foo > out.txt &"),
        vec![
            ident("ls"),
            ident("-la"),
            InputToken::Pipe,
            ident("grep"),
            ident("foo"),
            InputToken::RedirectOut,
            ident("out.txt"),
            InputToken::Background,
        ]
    );
}

#[test]
fn doubled_operators() {
    assert_eq!(
        lex("a >> b && c || d"),
        vec![
            ident("a"),
            InputToken::RedirectAppendOut,
            ident("b"),
            InputToken::LogicAnd,
            ident("c"),
            InputToken::LogicOr,
            ident("d"),
        ]
    );
}

#[test]
fn redirect_in_comment_and_newline() {
    assert_eq!(
        lex("cat < in # note \n"),
        vec![ident("cat"), InputToken::RedirectIn, ident("in"), InputToken::Comment, ident("note"), InputToken::NewLine]
    );
}

#[test]
fn quoted_span_is_one_identifier() {
    assert_eq!(lex("echo \"a | b > c\" x"), vec![ident("echo"), ident("a | b > c"), ident("x")]);
}

#[test]
fn empty_and_blank_input_yield_nothing() {
    assert_eq!(lex(""), vec![]);
    assert_eq!(lex("   \t "), vec![]);
    let mut l = InputLexer::new("");
    assert_eq!(l.next(), None);
    assert_eq!(l.next(), None);
}

#[test]
fn unrecognized_character_ends_identifier_and_is_consumed() {
    assert_eq!(lex("ab*cd"), vec![ident("ab"), ident(""), ident("cd")]);
    assert_eq!(lex("*"), vec![ident("")]);
}

#[test]
fn operator_right_after_word_is_kept() {
    assert_eq!(lex("ls|wc"), vec![ident("ls"), InputToken::Pipe, ident("wc")]);
    assert_eq!(lex("ls\n"), vec![ident("ls"), InputToken::NewLine]);
    assert_eq!(lex("a>b&"), vec![ident("a"), InputToken::RedirectOut, ident("b"), InputToken::Background]);
}

#[test]
fn non_ascii_letters_are_word_characters() {
    assert_eq!(lex("héllo wörld"), vec![ident("héllo"), ident("wörld")]);
}

#[test]
fn nul_character_ends_input() {
    assert_eq!(lex("a \0 b"), vec![ident("a")]);
}

#[test]
fn peek_and_handle_double() {
    let mut l = InputLexer::new(">x");
    assert_eq!(l.peek_char(), '>');
    let r = l.handle_double('>', Some(InputToken::RedirectOut), Some(InputToken::RedirectAppendOut));
    assert_eq!(r, Some(InputToken::RedirectAppendOut));
    assert_eq!(l.peek_char(), 'x');
    let r = l.handle_double('>', Some(InputToken::RedirectOut), Some(InputToken::RedirectAppendOut));
    assert_eq!(r, Some(InputToken::RedirectOut));
    assert_eq!(l.next(), Some(ident("x")));
    assert_eq!(l.peek_char(), '\0');
}
