use teci::envirnoment::Envirnoment;
use teci::object::{Object, Rat};
use teci::token::Token;
use teci::token_type::TokenType;

fn ident(name: &str) -> Token {
    Token::new(TokenType::Identifier, name.to_string(), None, 0)
}

#[test]
fn t_define_variable() {
    let mut e = Envirnoment::new();
    e.define("a".to_string(), Object::Bool(true));
    assert!(e.get(&ident("a")).is_ok());
    assert_eq!(e.get(&ident("a")).unwrap(), Object::Bool(true));
}

#[test]
fn t_redefine_variable() {
    let mut e = Envirnoment::new();
    e.define("a".to_string(), Object::Bool(false));
    e.define("a".to_string(), Object::Num(Rat::from_int(6)));
    assert_eq!(e.get(&ident("a")).unwrap(), Object::Num(Rat::from_int(6)));
}

#[test]
fn t_lookup_variable() {
    let mut e = Envirnoment::new();
    e.define("a".to_string(), Object::Str("foo".to_string()));
    let tok = ident("a");
    let tok_err = ident("b");
    assert_eq!(e.get(&tok).unwrap(), Object::Str("foo".to_string()));
    assert!(e.get(&tok_err).is_err());
}

#[test]
fn t_enclose_envirnoment() {
    let mut e = Envirnoment::new();
    e.define("a".to_string(), Object::Bool(true));
    let f = e.with_enclosing();
    // The child's enclosing chain holds exactly the parent's bindings.
    assert_eq!(f.depth(), 2);
    assert_eq!(f.get(&ident("a")).unwrap(), Object::Bool(true));
}

#[test]
fn t_read_from_eclosing() {
    let mut e = Envirnoment::new();
    e.define("a".to_string(), Object::Num(Rat::from_int(1)));
    let f = e.with_enclosing();
    assert_eq!(
        f.get(&ident("a")).unwrap(),
        Object::Num(Rat::from_int(1))
    );
}

#[test]
fn t_assign_to_enclosing() {
    let mut e = Envirnoment::new();
    e.define("a".to_string(), Object::Num(Rat::from_int(1)));
    let mut f = e.with_enclosing();
    let tok = ident("a");
    assert!(f.assign(&tok, Object::Bool(false)).is_ok());
    assert_eq!(f.get(&tok).unwrap(), Object::Bool(false));
}
