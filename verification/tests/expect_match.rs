use jarl_core::call::{Argument, Call, Callee, Expression, TreeFault};
use jarl_core::diagnostic::{Diagnostic, Fix};
use jarl_core::expect_match::expect_match;
use jarl_core::fix::apply_fixes;
use jarl_core::range::Range;
use jarl_core::rules::Rule;

/// Reads R calls out of a source text into the values that the rules take.
/// It knows names, namespaces, quoted strings, calls, named arguments and
/// comments, which is what the texts below are made of. Offsets count
/// characters.
struct Reader {
    chars: Vec<char>,
    at: usize,
    comments: Vec<usize>,
}

impl Reader {
    fn new(text: &str) -> Reader {
        Reader { chars: text.chars().collect(), at: 0, comments: Vec::new() }
    }

    fn peek(&self) -> Option<char> {
        self.chars.get(self.at).copied()
    }

    fn slice(&self, from: usize, to: usize) -> String {
        self.chars[from..to].iter().collect()
    }

    fn skip_trivia(&mut self, newlines: bool) {
        while let Some(c) = self.peek() {
            if c == '#' {
                self.comments.push(self.at);
                while let Some(c) = self.peek() {
                    if c == '\n' {
                        break;
                    }
                    self.at += 1;
                }
            } else if c == ' ' || c == '\t' || (newlines && (c == '\n' || c == '\r')) {
                self.at += 1;
            } else {
                break;
            }
        }
    }

    fn word(&mut self) -> String {
        let from = self.at;
        while let Some(c) = self.peek() {
            if c.is_alphanumeric() || c == '.' || c == '_' || c == ':' {
                self.at += 1;
            } else {
                break;
            }
        }
        self.slice(from, self.at)
    }

    fn quoted(&mut self) {
        let quote = self.chars[self.at];
        self.at += 1;
        while let Some(c) = self.peek() {
            self.at += 1;
            if c == '\\' {
                self.at += 1;
            } else if c == quote {
                break;
            }
        }
    }

    fn at_end_of_expression(&self) -> bool {
        let mut i = self.at;
        while i < self.chars.len() && (self.chars[i] == ' ' || self.chars[i] == '\t') {
            i += 1;
        }
        match self.chars.get(i) {
            None => true,
            Some(c) => matches!(c, ',' | ')' | ';' | '\n' | '\r' | '#'),
        }
    }

    /// An expression that starts at the next token, with the offset behind
    /// its last token.
    fn expression(&mut self) -> Option<(Expression, usize)> {
        self.skip_trivia(true);
        let from = self.at;
        let mut call: Option<Box<Call>> = None;
        match self.peek() {
            None => return None,
            Some('\'') | Some('"') => self.quoted(),
            Some(_) => {
                let name = self.word();
                if name.is_empty() {
                    return None;
                }
                while self.peek() == Some('(') {
                    self.at += 1;
                    let arguments = self.arguments();
                    let function = if call.is_none() {
                        let (prefix, bare) = match name.rfind("::") {
                            Some(cut) => (Some(name[..cut + 2].to_string()), name[cut + 2..].to_string()),
                            None => (None, name.clone()),
                        };
                        Ok(Callee { name: bare, namespace_prefix: prefix })
                    } else {
                        Ok(Callee { name: String::new(), namespace_prefix: None })
                    };
                    let range = Range { start: from, end: self.at };
                    let has_comments =
                        self.comments.iter().any(|c| range.start <= *c && *c < range.end);
                    call = Some(Box::new(Call {
                        range,
                        function,
                        arguments: Ok(arguments),
                        has_comments,
                    }));
                }
            }
        }
        if !self.at_end_of_expression() {
            // An operator follows: the expression is no call, and runs up to
            // the next separator outside brackets and strings.
            call = None;
            let mut depth = 0usize;
            while let Some(c) = self.peek() {
                if c == '\'' || c == '"' {
                    self.quoted();
                    continue;
                }
                if c == '(' {
                    depth += 1;
                } else if c == ')' {
                    if depth == 0 {
                        break;
                    }
                    depth -= 1;
                } else if depth == 0 && matches!(c, ',' | ';' | '\n' | '#') {
                    break;
                }
                self.at += 1;
            }
            while self.at > from && self.chars[self.at - 1] == ' ' {
                self.at -= 1;
            }
        }
        let end = self.at;
        Some((Expression { text: self.slice(from, end), call }, end))
    }

    /// The arguments up to the closing bracket, which is consumed.
    fn arguments(&mut self) -> Vec<Argument> {
        let mut arguments = Vec::new();
        loop {
            self.skip_trivia(true);
            match self.peek() {
                None => break,
                Some(')') => {
                    self.at += 1;
                    break;
                }
                Some(',') => {
                    self.at += 1;
                    continue;
                }
                Some(_) => {}
            }
            let from = self.at;
            let mut name = None;
            let candidate = self.word();
            let behind_word = self.at;
            self.skip_trivia(false);
            if !candidate.is_empty()
                && self.peek() == Some('=')
                && self.chars.get(self.at + 1) != Some(&'=')
            {
                self.at += 1;
                name = Some(candidate);
            } else {
                self.at = from;
            }
            let mut end = if name.is_some() { self.at } else { behind_word };
            let mut value = None;
            let before_value = self.at;
            self.skip_trivia(true);
            if matches!(self.peek(), Some(',') | Some(')') | None) && name.is_some() {
                self.at = before_value;
            } else if let Some((expression, behind)) = self.expression() {
                value = Some(expression);
                end = behind;
            } else {
                // Nothing that this reader knows: step over one character.
                self.at += 1;
                continue;
            }
            arguments.push(Argument {
                name,
                value,
                range: Range { start: from, end },
                text: self.slice(from, end),
            });
        }
        arguments
    }
}

/// The expressions of a source text, one for each statement.
fn read(text: &str) -> Vec<Expression> {
    let mut reader = Reader::new(text);
    let mut roots = Vec::new();
    loop {
        reader.skip_trivia(true);
        match reader.peek() {
            None => break,
            Some(';') => {
                reader.at += 1;
            }
            Some(_) => match reader.expression() {
                Some((expression, _)) => roots.push(expression),
                None => {
                    reader.at += 1;
                }
            },
        }
    }
    roots
}

/// Every call of an expression, an outer call before the calls inside it.
fn calls_of<'a>(expression: &'a Expression, out: &mut Vec<&'a Call>) {
    if let Some(call) = &expression.call {
        out.push(call);
        if let Ok(arguments) = &call.arguments {
            for argument in arguments {
                if let Some(value) = &argument.value {
                    calls_of(value, out);
                }
            }
        }
    }
}

/// The diagnostics of the rule of that name on every call of the text.
fn lint(text: &str, rule: &str) -> Vec<Diagnostic> {
    let rule = Rule::from_name(rule).expect("a rule of that name");
    let roots = read(text);
    let mut calls = Vec::new();
    for root in &roots {
        calls_of(root, &mut calls);
    }
    let mut found = Vec::new();
    for call in calls {
        if let Some(diagnostic) = rule.evaluate(call).expect("a complete tree") {
            found.push(diagnostic);
        }
    }
    found
}

fn expect_no_lint(text: &str, rule: &str, _minimum_version: Option<&str>) {
    let found = lint(text, rule);
    assert!(found.is_empty(), "{:?} on {:?}", found, text);
}

fn expect_lint(text: &str, message: &str, rule: &str, _minimum_version: Option<&str>) {
    let found = lint(text, rule);
    assert!(!found.is_empty(), "nothing reported on {:?}", text);
    assert!(
        found.iter().any(|d| d.message.body.contains(message)),
        "{:?} on {:?}",
        found,
        text
    );
}

/// The text after the fixes of the rule of that name have been applied.
fn fix_text(text: &str, rule: &str) -> String {
    let fixes: Vec<Fix> = lint(text, rule).into_iter().map(|d| d.fix).collect();
    apply_fixes(&fixes, text).text
}

fn only_call(text: &str) -> Call {
    let mut roots = read(text);
    assert_eq!(roots.len(), 1);
    *roots.remove(0).call.expect("a call")
}

#[test]
fn test_no_lint_expect_match() {
    expect_no_lint("grepl('Testing is fun', 'fun')", "expect_match", None);
    expect_no_lint(
        "expect_true(grep('Testing is fun', 'fun'))",
        "expect_match",
        None,
    );
    expect_no_lint(
        "expect_false(grepl('Testing is fun', 'fun'))",
        "expect_match",
        None,
    );
    expect_no_lint("expect_true(is.na(x))", "expect_match", None);
    expect_no_lint("expect_true(grepl())", "expect_match", None);
    expect_no_lint("expect_true(grepl(pattern = 'x'))", "expect_match", None);
    expect_no_lint("expect_true(grepl(x = 'y'))", "expect_match", None);
}

#[test]
fn test_lint_expect_match() {
    let lint_msg = "expect_true(grepl(...))` is not as clear as expect_match(...).";

    expect_lint(
        "show_failure(expect_true(grepl('Testing is fun', 'fun')))",
        lint_msg,
        "expect_match",
        None,
    );
    expect_lint(
        "testthat::expect_true(grepl('Testing is fun', 'fun'))",
        lint_msg,
        "expect_match",
        None,
    );
    expect_lint(
        "expect_true(grepl('Testing is fun', 'fun'), info = 'msg')",
        lint_msg,
        "expect_match",
        None,
    );
    expect_lint(
        "expect_true(grepl(pattern = 'Testing is fun', x = 'fun'))",
        lint_msg,
        "expect_match",
        None,
    );
}

#[test]
fn reader_gives_names_values_and_offsets() {
    let text = "pkg::f(a, b = g(1), c = )  # done";
    let call = only_call(text);
    assert_eq!(call.range, Range { start: 0, end: 25 });
    assert!(!call.has_comments);
    let callee = call.function.as_ref().unwrap();
    assert_eq!(callee.name, "f");
    assert_eq!(callee.namespace_prefix.as_deref(), Some("pkg::"));
    let args = call.arguments.as_ref().unwrap();
    assert_eq!(args.len(), 3);
    assert_eq!(args[0].name, None);
    assert_eq!(args[0].text, "a");
    assert_eq!(args[0].range, Range { start: 7, end: 8 });
    assert_eq!(args[1].name.as_deref(), Some("b"));
    assert_eq!(args[1].text, "b = g(1)");
    assert_eq!(args[1].range, Range { start: 10, end: 18 });
    let value = args[1].value.as_ref().unwrap();
    assert_eq!(value.text, "g(1)");
    assert_eq!(value.call.as_ref().unwrap().range, Range { start: 14, end: 18 });
    assert_eq!(args[2].name.as_deref(), Some("c"));
    assert!(args[2].value.is_none());
    assert_eq!(args[2].text, "c =");
}

#[test]
fn fix_swaps_the_operands() {
    let text = "expect_true(grepl('Testing is fun', 'fun'))";
    let found = lint(text, "expect_match");
    assert_eq!(found.len(), 1);
    let d = &found[0];
    assert_eq!(d.message.name, "expect_match");
    assert_eq!(
        d.message.body,
        "`expect_true(grepl(...))` is not as clear as expect_match(...)."
    );
    assert_eq!(d.message.suggestion.as_deref(), Some("Use `expect_match(...)` instead."));
    assert_eq!(d.range, Range { start: 0, end: 43 });
    assert_eq!(d.fix.content, "expect_match('fun', 'Testing is fun')");
    assert_eq!(d.fix.start, 0);
    assert_eq!(d.fix.end, 43);
    assert!(!d.fix.to_skip);
    assert_eq!(fix_text(text, "expect_match"), "expect_match('fun', 'Testing is fun')");
}

#[test]
fn fix_keeps_the_namespace() {
    let text = "testthat::expect_true(grepl('Testing is fun', 'fun'))";
    let found = lint(text, "expect_match");
    assert_eq!(found.len(), 1);
    assert_eq!(found[0].fix.content, "testthat::expect_match('fun', 'Testing is fun')");
    assert_eq!(found[0].range, Range { start: 0, end: 53 });
    assert_eq!(
        fix_text(text, "expect_match"),
        "testthat::expect_match('fun', 'Testing is fun')"
    );
}

#[test]
fn further_outer_argument_withholds_the_fix() {
    let text = "expect_true(grepl('Testing is fun', 'fun'), info = 'msg')";
    let found = lint(text, "expect_match");
    assert_eq!(found.len(), 1);
    assert_eq!(found[0].range, Range { start: 0, end: 57 });
    assert_eq!(found[0].fix.content, "");
    assert_eq!(found[0].fix.start, 0);
    assert_eq!(found[0].fix.end, 0);
    assert!(!found[0].fix.to_skip);
    assert_eq!(fix_text(text, "expect_match"), text);
}

#[test]
fn missing_operand_gives_no_diagnostic() {
    assert!(lint("expect_true(grepl(pattern = 'x'))", "expect_match").is_empty());
    assert!(lint("expect_true(grepl('x'))", "expect_match").is_empty());
    // `x` is the second formal: one positional argument beside a named
    // `pattern` does not reach it.
    assert!(lint("expect_true(grepl('s', pattern = 'x'))", "expect_match").is_empty());
}

#[test]
fn other_inner_function_gives_no_diagnostic() {
    assert!(lint("expect_true(is.na(x))", "expect_match").is_empty());
    assert!(lint("expect_true(x)", "expect_match").is_empty());
    assert!(lint("expect_true()", "expect_match").is_empty());
    assert!(lint("expect_true(grepl('a', x) && y)", "expect_match").is_empty());
}

#[test]
fn operands_without_value_give_no_diagnostic() {
    assert!(lint("expect_true(grepl(pattern = , x = y))", "expect_match").is_empty());
    assert!(lint("expect_true(grepl(pattern = 'a', x = ))", "expect_match").is_empty());
    assert!(lint("expect_true(object = )", "expect_match").is_empty());
}

#[test]
fn named_operands_are_found_in_any_order() {
    let text = "expect_true(grepl(x = 'fun', pattern = 'Testing is fun'))";
    assert_eq!(lint(text, "expect_match")[0].fix.content, "expect_match('fun', 'Testing is fun')");
    let text = "expect_true(grepl(pattern = 'Testing is fun', x = 'fun'))";
    assert_eq!(lint(text, "expect_match")[0].fix.content, "expect_match('fun', 'Testing is fun')");
    let text = "expect_true(object = grepl('a', s))";
    assert_eq!(lint(text, "expect_match")[0].fix.content, "expect_match(s, 'a')");
    // A named `x` leaves the first place among the unnamed to `pattern`.
    let text = "expect_true(grepl('a', x = s))";
    assert_eq!(lint(text, "expect_match")[0].fix.content, "expect_match(s, 'a')");
    let text = "expect_true(grepl(x = s, 'a'))";
    assert_eq!(lint(text, "expect_match")[0].fix.content, "expect_match(s, 'a')");
    // A named `pattern` does not move `x` up: its place stays the second.
    let text = "expect_true(grepl(s, pattern = 'a'))";
    assert!(lint(text, "expect_match").is_empty());
    let text = "expect_true(grepl(pattern = 'a', 'b', s))";
    assert_eq!(lint(text, "expect_match")[0].fix.content, "expect_match(s, 'a', 'b')");
    // Two unnamed arguments reach the place of `x` before `x` is named.
    let text = "expect_true(grepl('a', 'b', x = s))";
    assert!(lint(text, "expect_match").is_empty());
    let text = "expect_true(f(), object = grepl('a', s))";
    assert!(lint(text, "expect_match").is_empty());
}

#[test]
fn further_inner_arguments_are_kept_in_order() {
    let text = "expect_true(grepl('a.b', s, fixed = TRUE, ignore.case = FALSE))";
    assert_eq!(
        fix_text(text, "expect_match"),
        "expect_match(s, 'a.b', fixed = TRUE, ignore.case = FALSE)"
    );
    let text = "expect_true(grepl(fixed = TRUE, x = s, perl = FALSE, pattern = 'a'))";
    assert_eq!(
        fix_text(text, "expect_match"),
        "expect_match(s, 'a', fixed = TRUE, perl = FALSE)"
    );
}

#[test]
fn comment_inside_the_call_keeps_the_source() {
    let text = "expect_true(grepl('a', s # why\n))";
    let found = lint(text, "expect_match");
    assert_eq!(found.len(), 1);
    assert_eq!(found[0].fix.content, "expect_match(s, 'a')");
    assert!(found[0].fix.to_skip);
    let fixes: Vec<Fix> = found.into_iter().map(|d| d.fix).collect();
    let out = apply_fixes(&fixes, text);
    assert_eq!(out.text, text);
    assert!(out.applied.is_empty());
    assert!(out.conflicts.is_empty());
}

#[test]
fn comment_behind_the_call_does_not_stop_the_fix() {
    let text = "expect_true(grepl('a', s)) # fine";
    let found = lint(text, "expect_match");
    assert!(!found[0].fix.to_skip);
    assert_eq!(fix_text(text, "expect_match"), "expect_match(s, 'a') # fine");
}

#[test]
fn rule_does_not_fire_on_its_own_output() {
    let texts = [
        "expect_true(grepl('Testing is fun', 'fun'))",
        "testthat::expect_true(grepl(pattern = 'a', x = s, fixed = TRUE))",
        "f(expect_true(grepl('a', s)), expect_true(grepl('b', t)))",
    ];
    for text in texts {
        let once = fix_text(text, "expect_match");
        assert_ne!(once, text);
        assert!(lint(&once, "expect_match").is_empty(), "{:?}", once);
        assert_eq!(fix_text(&once, "expect_match"), once);
    }
}

#[test]
fn fixes_of_calls_side_by_side_are_both_applied() {
    let text = "expect_true(grepl('a', s)); expect_true(grepl('b', t))";
    let found = lint(text, "expect_match");
    assert_eq!(found.len(), 2);
    let fixes: Vec<Fix> = found.into_iter().map(|d| d.fix).collect();
    let out = apply_fixes(&fixes, text);
    assert_eq!(out.text, "expect_match(s, 'a'); expect_match(t, 'b')");
    assert_eq!(out.applied.len(), 2);
    assert!(out.conflicts.is_empty());
    assert!(out.applied[0].end <= out.applied[1].start);
}

#[test]
fn fix_of_a_call_inside_a_fixed_call_is_a_conflict() {
    let text = "expect_true(grepl('a', expect_true(grepl('b', t))))";
    let found = lint(text, "expect_match");
    assert_eq!(found.len(), 2);
    assert_eq!(found[0].range, Range { start: 0, end: 51 });
    assert_eq!(found[1].range, Range { start: 23, end: 49 });
    let fixes: Vec<Fix> = found.into_iter().map(|d| d.fix).collect();
    let out = apply_fixes(&fixes, text);
    assert_eq!(out.text, "expect_match(expect_true(grepl('b', t)), 'a')");
    assert_eq!(out.applied.len(), 1);
    assert_eq!(out.applied[0].start, 0);
    assert_eq!(out.conflicts.len(), 1);
    assert_eq!(out.conflicts[0].start, 23);
    assert_eq!(out.conflicts[0].content, "expect_match(t, 'b')");
    // The inner call is still there, and a second pass rewrites it.
    assert_eq!(fix_text(&out.text, "expect_match"), "expect_match(expect_match(t, 'b'), 'a')");
}

#[test]
fn offsets_count_characters() {
    let text = "é <- 1; expect_true(grepl('ü', s))";
    let found = lint(text, "expect_match");
    assert_eq!(found.len(), 1);
    assert_eq!(found[0].range, Range { start: 8, end: 34 });
    assert_eq!(fix_text(text, "expect_match"), "é <- 1; expect_match(s, 'ü')");
}

fn bare(name: &str) -> Result<Callee, TreeFault> {
    Ok(Callee { name: name.to_string(), namespace_prefix: None })
}

fn positional(text: &str, at: usize, call: Option<Call>) -> Argument {
    Argument {
        name: None,
        value: Some(Expression { text: text.to_string(), call: call.map(Box::new) }),
        range: Range { start: at, end: at + text.chars().count() },
        text: text.to_string(),
    }
}

#[test]
fn unreadable_children_are_reported_as_faults() {
    let inner = |function, arguments| Call {
        range: Range { start: 12, end: 23 },
        function,
        arguments,
        has_comments: false,
    };
    let outer = |function, inner: Call| Call {
        range: Range { start: 0, end: 24 },
        function,
        arguments: Ok(vec![positional("grepl('a',s)", 12, Some(inner))]),
        has_comments: false,
    };
    let operands = || Ok(vec![positional("'a'", 18, None), positional("s", 22, None)]);

    let sound = outer(bare("expect_true"), inner(bare("grepl"), operands()));
    assert_eq!(expect_match(&sound).unwrap().unwrap().fix.content, "expect_match(s, 'a')");

    let call = outer(Err(TreeFault::MissingRequiredChild), inner(bare("grepl"), operands()));
    assert_eq!(expect_match(&call).unwrap_err(), TreeFault::MissingRequiredChild);

    let mut call = outer(bare("expect_true"), inner(bare("grepl"), operands()));
    call.arguments = Err(TreeFault::UnexpectedMetavariable);
    assert_eq!(expect_match(&call).unwrap_err(), TreeFault::UnexpectedMetavariable);

    let call = outer(bare("expect_true"), inner(Err(TreeFault::MissingRequiredChild), operands()));
    assert_eq!(expect_match(&call).unwrap_err(), TreeFault::MissingRequiredChild);

    let call = outer(
        bare("expect_true"),
        inner(bare("grepl"), Err(TreeFault::UnexpectedMetavariable)),
    );
    assert_eq!(expect_match(&call).unwrap_err(), TreeFault::UnexpectedMetavariable);

    // A call of another function is passed over before its arguments are read.
    let mut call = outer(bare("expect_false"), inner(bare("grepl"), operands()));
    call.arguments = Err(TreeFault::MissingRequiredChild);
    assert!(expect_match(&call).unwrap().is_none());
    let call = outer(bare("expect_true"), inner(bare("grep"), Err(TreeFault::MissingRequiredChild)));
    assert!(expect_match(&call).unwrap().is_none());
}

#[test]
fn rules_are_found_by_name() {
    assert_eq!(Rule::from_name("expect_match"), Some(Rule::ExpectMatch));
    assert_eq!(Rule::from_name("expect_matc"), None);
    assert_eq!(Rule::from_name("expect_match "), None);
    assert_eq!(Rule::from_name(""), None);
    assert_eq!(Rule::ExpectMatch.name(), "expect_match");
    assert!(!Rule::ExpectMatch.enabled_by_default());
}
