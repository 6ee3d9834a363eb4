use podo::definition::ddl::column::parse_column_expression;
use podo::definition::ddl::error::Error;
use podo::text::is_whitespace;
use regex::Regex;

fn reference(input: &str) -> Option<(String, bool, Option<String>)> {
    let re = Regex::new(r"^(?P<type>[^=!]+)(?P<notnull>!)?(?:\s*=\s*(?P<default>.+))?$").unwrap();
    re.captures(input).map(|caps| {
        (
            caps.name("type").unwrap().as_str().trim().to_string(),
            caps.name("notnull").is_some(),
            caps.name("default").map(|s| s.as_str().trim().to_string()),
        )
    })
}

#[test]
fn test_column_expression_agrees_with_its_pattern() {
    let inputs = [
        "text", "text!", "text = 'a'", "text! = 'a'", "text!= 1", "text =1", "  int  ", "int ! = 1", "int!!",
        "=1", "!", "", "int =", "int = ", "int = a = b", "int = a\nb", "int\n= 1", "numeric(13, 4)! = 0.0",
        "int = ! x", "a b c", "int\u{3000}= x", "int =\u{a0}x", "x!y", "int = x\n", "\n", "int != 3",
    ];
    for input in inputs {
        let got = parse_column_expression(input);
        match reference(input) {
            Some(expected) => assert_eq!(got.unwrap(), expected, "input {:?}", input),
            None => assert_eq!(
                got.unwrap_err(),
                Error::InvalidTypeExpression { type_expression: input.to_string() },
                "input {:?}",
                input
            ),
        }
    }
}

#[test]
fn test_whitespace_agrees_with_char_is_whitespace() {
    for code in 0u32..0x110000 {
        if let Some(c) = char::from_u32(code) {
            assert_eq!(is_whitespace(c), c.is_whitespace(), "char {:x}", code);
        }
    }
}
