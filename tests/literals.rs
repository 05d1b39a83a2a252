use fvm::assembler::{classify_literal, parse_literal};
use fvm::error::AssemblerError;
use fvm::floats::FloatUnit;
use fvm::value::Value;

struct HostFloats;

impl FloatUnit for HostFloats {
    fn parse(&self, text: &str) -> Option<u64> {
        text.parse::<f64>().ok().map(|f| f.to_bits())
    }
    fn add(&self, l: u64, r: u64) -> u64 {
        (f64::from_bits(l) + f64::from_bits(r)).to_bits()
    }
    fn sub(&self, l: u64, r: u64) -> u64 {
        (f64::from_bits(l) - f64::from_bits(r)).to_bits()
    }
    fn mul(&self, l: u64, r: u64) -> u64 {
        (f64::from_bits(l) * f64::from_bits(r)).to_bits()
    }
    fn div(&self, l: u64, r: u64) -> u64 {
        (f64::from_bits(l) / f64::from_bits(r)).to_bits()
    }
    fn rem(&self, l: u64, r: u64) -> u64 {
        (f64::from_bits(l) % f64::from_bits(r)).to_bits()
    }
    fn floor_div(&self, l: u64, r: u64) -> i64 {
        (f64::from_bits(l) / f64::from_bits(r)).floor() as i64
    }
    fn less(&self, l: u64, r: u64) -> bool {
        f64::from_bits(l) < f64::from_bits(r)
    }
    fn less_eq(&self, l: u64, r: u64) -> bool {
        f64::from_bits(l) <= f64::from_bits(r)
    }
}

#[test]
fn parse_string() {
    let result = parse_literal("\"this is a test\"", 0, &HostFloats);
    match result {
        Ok(msg) => {
            assert_eq!(msg, Value::String("this is a test".to_string()));
        }
        _ => {
            panic!("Invalid string parse!");
        }
    }
}

#[test]
fn parse_bool() {
    let result = parse_literal("true", 0, &HostFloats);
    assert_eq!(result.unwrap(), Value::Bool(true));
}

#[test]
fn parse_float() {
    let result = parse_literal("456.78", 0, &HostFloats);
    assert_eq!(result.unwrap(), Value::Float(456.78f64.to_bits()))
}

#[test]
fn parse_int() {
    let result = parse_literal("123", 0, &HostFloats);
    assert_eq!(result.unwrap(), Value::Int(123));
}

#[test]
fn parse_ident() {
    let result = parse_literal("testIdent", 0, &HostFloats);
    assert_eq!(result.unwrap(), Value::Ident("testIdent".to_string()));
}

#[test]
#[should_panic]
fn parse_fail() {
    let _ = parse_literal("'test", 0, &HostFloats).unwrap();
}

#[test]
#[should_panic]
fn parse_bad_ident() {
    let _ = parse_literal("1test", 0, &HostFloats).unwrap();
}

#[test]
#[should_panic]
fn parse_empty_arg() {
    let _ = parse_literal("", 0, &HostFloats).unwrap();
}

#[test]
fn single_quoted_string() {
    let r = parse_literal("'abc'", 3, &HostFloats).unwrap();
    assert_eq!(r, Value::String("abc".to_string()));
}

#[test]
fn lone_quote_is_invalid() {
    let r = parse_literal("\"", 4, &HostFloats);
    assert!(matches!(r, Err(AssemblerError::InvalidLiteral(_, 4))));
}

#[test]
fn false_literal() {
    assert_eq!(parse_literal("false", 0, &HostFloats).unwrap(), Value::Bool(false));
}

#[test]
fn literal_is_trimmed() {
    // the white space around the token goes; what is left is read
    assert_eq!(parse_literal("  42\t", 0, &HostFloats).unwrap(), Value::Int(42));
    assert_eq!(parse_literal(" name ", 0, &HostFloats).unwrap(), Value::Ident("name".to_string()));
}

#[test]
fn untrimmed_token_is_not_classified() {
    let r = classify_literal(" 42", 9, &HostFloats);
    assert!(matches!(r, Err(AssemblerError::InvalidLiteral(_, 9))));
}

#[test]
fn negative_and_signed_integers() {
    assert_eq!(parse_literal("-17", 0, &HostFloats).unwrap(), Value::Int(-17));
    assert_eq!(parse_literal("+5", 0, &HostFloats).unwrap(), Value::Int(5));
    assert_eq!(
        parse_literal("-9223372036854775808", 0, &HostFloats).unwrap(),
        Value::Int(i64::MIN)
    );
    assert_eq!(
        parse_literal("9223372036854775807", 0, &HostFloats).unwrap(),
        Value::Int(i64::MAX)
    );
}

#[test]
fn integer_out_of_range_is_invalid() {
    let r = parse_literal("9223372036854775808", 2, &HostFloats);
    assert!(matches!(r, Err(AssemblerError::InvalidLiteral(_, 2))));
    let r = parse_literal("-", 2, &HostFloats);
    assert!(matches!(r, Err(AssemblerError::InvalidLiteral(_, 2))));
}

#[test]
fn bad_float_is_invalid() {
    let r = parse_literal("1.2.3", 7, &HostFloats);
    assert!(matches!(r, Err(AssemblerError::InvalidLiteral(_, 7))));
}

#[test]
fn unicode_identifier() {
    assert_eq!(parse_literal("été", 0, &HostFloats).unwrap(), Value::Ident("été".to_string()));
}
