use ruukh_codegen::error::{Error, ErrorKind};
use ruukh_codegen::event::{EventSyntax, FnArg, ReturnType};
use ruukh_codegen::events::EventsSyntax;
use ruukh_codegen::token::{Delimiter, Spacing, Span, Tok, Token};

/// Splits simple source text into tokens, with byte offsets as spans.
fn lex(src: &str) -> Vec<Tok> {
    let chars: Vec<char> = src.chars().collect();
    let mut out = Vec::new();
    let mut i = 0;
    while i < chars.len() {
        let c = chars[i];
        let span = |lo: usize, hi: usize| Span { lo, hi };
        if c.is_whitespace() {
            i += 1;
        } else if c.is_alphanumeric() || c == '_' {
            let lo = i;
            while i < chars.len() && (chars[i].is_alphanumeric() || chars[i] == '_') {
                i += 1;
            }
            let text: String = chars[lo..i].iter().collect();
            let token = if c.is_ascii_digit() {
                Token::Literal(text)
            } else {
                Token::Ident(text)
            };
            out.push(Tok { token, span: span(lo, i) });
        } else {
            let token = match c {
                '(' => Token::Open(Delimiter::Parenthesis),
                '[' => Token::Open(Delimiter::Bracket),
                '{' => Token::Open(Delimiter::Brace),
                ')' => Token::Close(Delimiter::Parenthesis),
                ']' => Token::Close(Delimiter::Bracket),
                '}' => Token::Close(Delimiter::Brace),
                _ => {
                    let next_is_punct = c == '\''
                        || i + 1 < chars.len()
                        && !chars[i + 1].is_whitespace()
                        && !chars[i + 1].is_alphanumeric()
                        && !"()[]{}_".contains(chars[i + 1]);
                    let spacing = if next_is_punct { Spacing::Joint } else { Spacing::Alone };
                    Token::Punct(c, spacing)
                }
            };
            out.push(Tok { token, span: span(i, i + 1) });
            i += 1;
        }
    }
    out
}

fn parse(src: &str) -> Result<EventsSyntax, Error> {
    EventsSyntax::parse(&lex(src))
}

fn words(toks: &[Tok]) -> String {
    let mut s = String::new();
    for t in toks {
        match &t.token {
            Token::Ident(x) | Token::Literal(x) => {
                if !s.is_empty() && s.chars().last().map_or(false, |c| c.is_alphanumeric()) {
                    s.push(' ');
                }
                s.push_str(x);
            }
            Token::Punct(c, _) => s.push(*c),
            Token::Open(Delimiter::Parenthesis) => s.push('('),
            Token::Open(Delimiter::Bracket) => s.push('['),
            Token::Open(Delimiter::Brace) => s.push('{'),
            Token::Close(Delimiter::Parenthesis) => s.push(')'),
            Token::Close(Delimiter::Bracket) => s.push(']'),
            Token::Close(Delimiter::Brace) => s.push('}'),
        }
    }
    s
}

fn args(ev: &EventSyntax) -> Vec<String> {
    ev.args
        .iter()
        .map(|a| match a {
            FnArg::Receiver(t) => words(t),
            FnArg::Typed { pat, ty } => format!("{}:{}", words(pat), words(ty)),
        })
        .collect()
}

fn ret(ev: &EventSyntax) -> Option<String> {
    match &ev.return_type {
        ReturnType::Default => None,
        ReturnType::Type(t) => Some(words(t)),
    }
}

fn err(src: &str) -> Error {
    match parse(src) {
        Ok(_) => panic!("expected an error for {}", src),
        Err(e) => e,
    }
}

#[test]
fn empty_list_parses() {
    let list = parse("()").unwrap();
    assert!(list.events.is_empty());
}

#[test]
fn missing_terminator_fails() {
    let e = err("(fn tick(&self))");
    assert_eq!(e.kind, ErrorKind::ExpectedTerminator);
    // nothing follows the parameters: the closing parenthesis is blamed
    assert_eq!(e.span, Span { lo: 15, hi: 16 });
    assert_eq!(e.message(), "expected `;`");
}

#[test]
fn missing_terminator_before_next_declaration() {
    let e = err("(fn a(&self) fn b(&self);)");
    assert_eq!(e.kind, ErrorKind::ExpectedTerminator);
    assert_eq!(e.span, Span { lo: 13, hi: 15 });
}

#[test]
fn return_type_absent() {
    let list = parse("(fn tick(&self);)").unwrap();
    assert_eq!(list.events.len(), 1);
    assert_eq!(ret(&list.events[0]), None);
}

#[test]
fn return_type_present() {
    let list = parse("(fn tick(&self) -> i32;)").unwrap();
    assert_eq!(list.events.len(), 1);
    assert_eq!(ret(&list.events[0]), Some("i32".to_string()));
}

#[test]
fn return_type_with_groups() {
    let list = parse("(fn tick(&self) -> Result<[u8; 4], ()>;)").unwrap();
    assert_eq!(ret(&list.events[0]), Some("Result<[u8;4],()>".to_string()));
}

#[test]
fn second_of_three_malformed_fails() {
    let e = err("(fn a(&self); fn b(&self) fn c(&self);)");
    assert_eq!(e.kind, ErrorKind::ExpectedTerminator);
    let e = err("(fn a(&self); b(&self); fn c(&self);)");
    assert_eq!(e.kind, ErrorKind::ExpectedKeyword);
    assert_eq!(e.span, Span { lo: 14, hi: 15 });
}

#[test]
fn scenario_click_and_hover() {
    let list = parse(
        "(fn on_click(&self, evt: Event); #[optional] fn on_hover(&self, evt: Event) -> bool;)",
    )
    .unwrap();
    assert_eq!(list.events.len(), 2);
    let a = &list.events[0];
    assert_eq!(a.ident.name, "on_click");
    assert_eq!(args(a), vec!["&self".to_string(), "evt:Event".to_string()]);
    assert!(a.attr.is_none());
    assert_eq!(ret(a), None);
    let b = &list.events[1];
    assert_eq!(b.ident.name, "on_hover");
    assert_eq!(args(b).len(), 2);
    let m = b.attr.as_ref().unwrap();
    assert_eq!(words(&m.tokens), "optional");
    assert_eq!(m.span, Span { lo: 33, hi: 44 });
    assert_eq!(ret(b), Some("bool".to_string()));
}

#[test]
fn declarations_keep_source_order() {
    let list = parse("(fn c(&self, z: u8, y: u16); fn a(); fn b(x: u32, w: u64,);)").unwrap();
    let names: Vec<&str> = list.events.iter().map(|e| e.ident.name.as_str()).collect();
    assert_eq!(names, vec!["c", "a", "b"]);
    assert_eq!(args(&list.events[0]), vec!["&self", "z:u8", "y:u16"]);
    assert!(list.events[1].args.is_empty());
    assert_eq!(args(&list.events[2]), vec!["x:u32", "w:u64"]);
}

#[test]
fn duplicate_names_are_kept() {
    let list = parse("(fn a(&self); fn a(&self);)").unwrap();
    assert_eq!(list.events.len(), 2);
}

#[test]
fn no_marker_is_absent() {
    let list = parse("(fn a(&self);)").unwrap();
    assert!(list.events[0].attr.is_none());
}

#[test]
fn one_marker_is_kept() {
    let list = parse("(#[optional] fn a(&self);)").unwrap();
    let m = list.events[0].attr.as_ref().unwrap();
    assert_eq!(words(&m.tokens), "optional");
    assert_eq!(m.span, Span { lo: 1, hi: 12 });
}

#[test]
fn two_markers_fail_at_the_first() {
    let e = err("(#[optional] #[other] fn a(&self);)");
    assert_eq!(e.kind, ErrorKind::TooManyMarkers);
    assert_eq!(e.span, Span { lo: 1, hi: 12 });
    assert_eq!(e.message(), "Multiple attributes found. Only one allowed.");
}

#[test]
fn generic_parameter_types_keep_their_commas() {
    let list = parse("(fn a(&self, m: HashMap<K, V>, f: Box<dyn Fn(u8, u8) -> u8>);)").unwrap();
    assert_eq!(
        args(&list.events[0]),
        vec!["&self", "m:HashMap<K,V>", "f:Box<dyn Fn(u8,u8)->u8>"]
    );
}

#[test]
fn trailing_comma_in_parameters() {
    let list = parse("(fn a(&self,);)").unwrap();
    assert_eq!(args(&list.events[0]), vec!["&self"]);
}

#[test]
fn missing_keyword() {
    let e = err("(tick(&self);)");
    assert_eq!(e.kind, ErrorKind::ExpectedKeyword);
    assert_eq!(e.span, Span { lo: 1, hi: 5 });
}

#[test]
fn missing_identifier() {
    let e = err("(fn (&self);)");
    assert_eq!(e.kind, ErrorKind::ExpectedIdentifier);
    assert_eq!(e.span, Span { lo: 4, hi: 5 });
}

#[test]
fn missing_parameter_list() {
    let e = err("(fn tick;)");
    assert_eq!(e.kind, ErrorKind::MalformedParameterList);
    assert_eq!(e.span, Span { lo: 8, hi: 9 });
}

#[test]
fn empty_parameter_is_malformed() {
    let e = err("(fn tick(&self,, x: u8);)");
    assert_eq!(e.kind, ErrorKind::MalformedParameterList);
    assert_eq!(e.span, Span { lo: 15, hi: 16 });
    let e = err("(fn tick(,);)");
    assert_eq!(e.kind, ErrorKind::MalformedParameterList);
}

#[test]
fn arrow_without_type() {
    let e = err("(fn tick(&self) -> ;)");
    assert_eq!(e.kind, ErrorKind::ExpectedType);
    assert_eq!(e.span, Span { lo: 19, hi: 20 });
}

#[test]
fn typed_declaration_without_terminator() {
    let e = err("(fn tick(&self) -> u8)");
    assert_eq!(e.kind, ErrorKind::ExpectedTerminator);
    assert_eq!(e.span, Span { lo: 21, hi: 22 });
}

#[test]
fn list_must_start_with_a_parenthesized_group() {
    assert_eq!(err("").kind, ErrorKind::MalformedEnclosure);
    let e = err("[fn a(&self);]");
    assert_eq!(e.kind, ErrorKind::MalformedEnclosure);
    assert_eq!(e.span, Span { lo: 0, hi: 1 });
    let e = err("(fn a(&self);");
    assert_eq!(e.kind, ErrorKind::MalformedEnclosure);
    assert_eq!(e.span, Span { lo: 0, hi: 1 });
}

#[test]
fn tokens_after_the_list_are_left_alone() {
    let toks = lex("(fn a(&self);) extra ; tokens");
    let (list, n) = EventsSyntax::parse_group(&toks).unwrap();
    assert_eq!(list.events.len(), 1);
    assert_eq!(n, 9);
    assert_eq!(words(&toks[n..]), "extra;tokens");
    assert_eq!(parse("(fn a(&self);) extra").unwrap().events.len(), 1);
}

#[test]
fn return_type_must_be_followed_by_terminator() {
    let e = err("(fn a(&self) -> u8 fn b(&self);)");
    assert_eq!(e.kind, ErrorKind::ExpectedTerminator);
    assert_eq!(e.span, Span { lo: 19, hi: 21 });
    let e = err("(fn a(&self) -> u8, fn b(&self);)");
    assert_eq!(e.kind, ErrorKind::ExpectedTerminator);
    assert_eq!(e.span, Span { lo: 18, hi: 19 });
}

#[test]
fn parameters_must_parse() {
    let e = err("(fn tick(&self, x: u8 5);)");
    assert_eq!(e.kind, ErrorKind::MalformedParameterList);
    assert_eq!(e.span, Span { lo: 16, hi: 17 });
    assert_eq!(err("(fn tick(5 self);)").kind, ErrorKind::MalformedParameterList);
    assert_eq!(err("(fn tick(&self self);)").kind, ErrorKind::MalformedParameterList);
    assert_eq!(err("(fn tick(&self, 5);)").kind, ErrorKind::MalformedParameterList);
}

#[test]
fn declaration_at_end_of_input() {
    let toks = lex("fn a(&self)");
    let e = EventSyntax::parse(&toks, 0, toks.len()).err().unwrap();
    assert_eq!(e.kind, ErrorKind::ExpectedTerminator);
    assert_eq!(e.span, Span { lo: 11, hi: 11 });
    let toks = lex("fn a(&self) -> bool;");
    let (ev, n) = EventSyntax::parse(&toks, 0, toks.len()).unwrap();
    assert_eq!(ret(&ev), Some("bool".to_string()));
    assert_eq!(n, toks.len());
}

#[test]
fn single_declaration_parse_reports_its_end() {
    let toks = lex("(fn a(&self); fn b();)");
    let end = toks.len() - 1;
    let (ev, n) = EventSyntax::parse(&toks, 1, end).unwrap();
    assert_eq!(ev.ident.name, "a");
    assert_eq!(n, 8);
    let (ev, n) = EventSyntax::parse(&toks, n, end).unwrap();
    assert_eq!(ev.ident.name, "b");
    assert_eq!(n, end);
}

#[test]
fn parameters_are_receivers_or_typed() {
    let list =
        parse("(fn a(&'a mut self, self: Box<Self>, m: std::string::String, (x, y): (u8, u8));)")
            .unwrap();
    let ev = &list.events[0];
    assert!(matches!(ev.args[0], FnArg::Receiver(_)));
    assert_eq!(
        args(ev),
        vec!["&'a mut self", "self:Box<Self>", "m:std::string::String", "(x,y):(u8,u8)"]
    );
}

#[test]
fn parameter_without_type_is_malformed() {
    let e = err("(fn tick(&self, evt);)");
    assert_eq!(e.kind, ErrorKind::MalformedParameterList);
    assert_eq!(e.span, Span { lo: 16, hi: 19 });
    let e = err("(fn tick(evt:);)");
    assert_eq!(e.kind, ErrorKind::MalformedParameterList);
    assert_eq!(e.span, Span { lo: 9, hi: 12 });
}

#[test]
fn keyword_is_not_an_event_name() {
    let e = err("(fn fn(&self);)");
    assert_eq!(e.kind, ErrorKind::ExpectedIdentifier);
    assert_eq!(e.span, Span { lo: 4, hi: 6 });
    assert_eq!(err("(fn self(&self);)").kind, ErrorKind::ExpectedIdentifier);
    assert_eq!(err("(fn _(&self);)").kind, ErrorKind::ExpectedIdentifier);
    let list = parse("(fn selfish(&self); fn types(&self);)").unwrap();
    assert_eq!(list.events.len(), 2);
}

#[test]
fn error_messages() {
    assert_eq!(ErrorKind::ExpectedKeyword.message(), "expected `fn`");
    assert_eq!(ErrorKind::ExpectedIdentifier.message(), "expected identifier");
    assert_eq!(ErrorKind::ExpectedType.message(), "expected type");
    assert_eq!(ErrorKind::TooManyMarkers.message(), "Multiple attributes found. Only one allowed.");
    assert_eq!(ErrorKind::ExpectedTerminator.message(), "expected `;`");
}
