//! The fixed keyword table of the toy language.

use vstd::prelude::*;

use crate::ast::tokens::TokenType;

verus! {

/// The token category a keyword maps to, or `None` for plain identifiers.
pub open spec fn sp_keyword(t: Seq<char>) -> Option<TokenType> {
    if t == "and"@ {
        Some(TokenType::And)
    } else if t == "or"@ {
        Some(TokenType::Or)
    } else if t == "class"@ {
        Some(TokenType::Class)
    } else if t == "else"@ {
        Some(TokenType::Else)
    } else if t == "true"@ {
        Some(TokenType::True)
    } else if t == "false"@ {
        Some(TokenType::False)
    } else if t == "for"@ {
        Some(TokenType::For)
    } else if t == "while"@ {
        Some(TokenType::While)
    } else if t == "fn"@ {
        Some(TokenType::Func)
    } else if t == "if"@ {
        Some(TokenType::If)
    } else if t == "null"@ {
        Some(TokenType::Null)
    } else if t == "print"@ {
        Some(TokenType::Print)
    } else if t == "return"@ {
        Some(TokenType::Return)
    } else if t == "parent"@ {
        Some(TokenType::Super)
    } else if t == "this"@ {
        Some(TokenType::This)
    } else if t == "let"@ {
        Some(TokenType::Var)
    } else {
        None
    }
}

/// Character-by-character string comparison.
pub fn str_eq(a: &str, b: &str) -> (r: bool)
    ensures
        r == (a@ == b@),
{
    let n: usize = a.unicode_len();
    let m: usize = b.unicode_len();
    if n != m {
        return false;
    }
    let mut i: usize = 0;
    loop
        invariant_except_break
            n == a@.len(),
            n == b@.len(),
            0 <= i <= n,
            forall|j: int| 0 <= j < i ==> a@[j] == b@[j],
        ensures
            (a@ == b@),
        decreases n - i,
    {
        if i >= n {
            proof {
                assert(a@ =~= b@);
            }
            break ;
        }
        if a.get_char(i) != b.get_char(i) {
            return false;
        }
        i = i + 1;
    }
    true
}

/// The language's keyword table.
pub struct Lang {
    pub keywords: Vec<(String, TokenType)>,
}

impl Lang {
    /// Every table entry agrees with the keyword map, and every keyword of
    /// the map is in the table.
    pub open spec fn wf(self) -> bool {
        &&& forall|i: int|
            0 <= i < self.keywords@.len() ==> sp_keyword(#[trigger] self.keywords@[i].0@) == Some(
                self.keywords@[i].1,
            )
        &&& forall|t: Seq<char>|
            (#[trigger] sp_keyword(t)) is Some ==> exists|i: int|
                0 <= i < self.keywords@.len() && (#[trigger] self.keywords@[i].0@) == t
    }

    /// The table, with every keyword of the language.
    pub fn new() -> (l: Lang)
        ensures
            l.wf(),
            l.keywords@.len() == 16,
    {
        let mut keywords: Vec<(String, TokenType)> = Vec::new();
        keywords.push(("and".to_owned(), TokenType::And));
        keywords.push(("or".to_owned(), TokenType::Or));
        keywords.push(("class".to_owned(), TokenType::Class));
        keywords.push(("else".to_owned(), TokenType::Else));
        keywords.push(("true".to_owned(), TokenType::True));
        keywords.push(("false".to_owned(), TokenType::False));
        keywords.push(("for".to_owned(), TokenType::For));
        keywords.push(("while".to_owned(), TokenType::While));
        keywords.push(("fn".to_owned(), TokenType::Func));
        keywords.push(("if".to_owned(), TokenType::If));
        keywords.push(("null".to_owned(), TokenType::Null));
        keywords.push(("print".to_owned(), TokenType::Print));
        keywords.push(("return".to_owned(), TokenType::Return));
        keywords.push(("parent".to_owned(), TokenType::Super));
        keywords.push(("this".to_owned(), TokenType::This));
        keywords.push(("let".to_owned(), TokenType::Var));
        let l = Lang { keywords };
        proof {
            reveal_strlit("and");
            reveal_strlit("or");
            reveal_strlit("class");
            reveal_strlit("else");
            reveal_strlit("true");
            reveal_strlit("false");
            reveal_strlit("for");
            reveal_strlit("while");
            reveal_strlit("fn");
            reveal_strlit("if");
            reveal_strlit("null");
            reveal_strlit("print");
            reveal_strlit("return");
            reveal_strlit("parent");
            reveal_strlit("this");
            reveal_strlit("let");
            assert('a' as u32 == 97 && 'c' as u32 == 99 && 'e' as u32 == 101 && 'f' as u32 == 102
                && 'h' as u32 == 104 && 'i' as u32 == 105 && 'l' as u32 == 108 && 'n' as u32 == 110
                && 'o' as u32 == 111 && 'p' as u32 == 112 && 'r' as u32 == 114 && 't' as u32 == 116
                && 'w' as u32 == 119);
            assert("and"@[0] == 'a' && "or"@[0] == 'o' && "class"@[0] == 'c' && "else"@[0] == 'e'
                && "true"@[0] == 't' && "false"@[0] == 'f' && "for"@[0] == 'f' && "while"@[0] == 'w'
                && "fn"@[0] == 'f' && "if"@[0] == 'i' && "null"@[0] == 'n' && "print"@[0] == 'p'
                && "return"@[0] == 'r' && "parent"@[0] == 'p' && "this"@[0] == 't' && "let"@[0]
                == 'l');
            assert("true"@[1] == 'r' && "this"@[1] == 'h');
            assert(l.keywords@[0].0@ == "and"@ && l.keywords@[0].1 == TokenType::And);
            assert(l.keywords@[1].0@ == "or"@ && l.keywords@[1].1 == TokenType::Or);
            assert(l.keywords@[2].0@ == "class"@ && l.keywords@[2].1 == TokenType::Class);
            assert(l.keywords@[3].0@ == "else"@ && l.keywords@[3].1 == TokenType::Else);
            assert(l.keywords@[4].0@ == "true"@ && l.keywords@[4].1 == TokenType::True);
            assert(l.keywords@[5].0@ == "false"@ && l.keywords@[5].1 == TokenType::False);
            assert(l.keywords@[6].0@ == "for"@ && l.keywords@[6].1 == TokenType::For);
            assert(l.keywords@[7].0@ == "while"@ && l.keywords@[7].1 == TokenType::While);
            assert(l.keywords@[8].0@ == "fn"@ && l.keywords@[8].1 == TokenType::Func);
            assert(l.keywords@[9].0@ == "if"@ && l.keywords@[9].1 == TokenType::If);
            assert(l.keywords@[10].0@ == "null"@ && l.keywords@[10].1 == TokenType::Null);
            assert(l.keywords@[11].0@ == "print"@ && l.keywords@[11].1 == TokenType::Print);
            assert(l.keywords@[12].0@ == "return"@ && l.keywords@[12].1 == TokenType::Return);
            assert(l.keywords@[13].0@ == "parent"@ && l.keywords@[13].1 == TokenType::Super);
            assert(l.keywords@[14].0@ == "this"@ && l.keywords@[14].1 == TokenType::This);
            assert(l.keywords@[15].0@ == "let"@ && l.keywords@[15].1 == TokenType::Var);
            assert forall|i: int|
                0 <= i < l.keywords@.len() implies sp_keyword(#[trigger] l.keywords@[i].0@)
                == Some(l.keywords@[i].1) by {
                if i == 0 {
                    assert(sp_keyword("and"@) == Some(TokenType::And));
                } else if i == 1 {
                    assert(sp_keyword("or"@) == Some(TokenType::Or));
                } else if i == 2 {
                    assert(sp_keyword("class"@) == Some(TokenType::Class));
                } else if i == 3 {
                    assert(sp_keyword("else"@) == Some(TokenType::Else));
                } else if i == 4 {
                    assert(sp_keyword("true"@) == Some(TokenType::True));
                } else if i == 5 {
                    assert(sp_keyword("false"@) == Some(TokenType::False));
                } else if i == 6 {
                    assert(sp_keyword("for"@) == Some(TokenType::For));
                } else if i == 7 {
                    assert(sp_keyword("while"@) == Some(TokenType::While));
                } else if i == 8 {
                    assert(sp_keyword("fn"@) == Some(TokenType::Func));
                } else if i == 9 {
                    assert(sp_keyword("if"@) == Some(TokenType::If));
                } else if i == 10 {
                    assert(sp_keyword("null"@) == Some(TokenType::Null));
                } else if i == 11 {
                    assert(sp_keyword("print"@) == Some(TokenType::Print));
                } else if i == 12 {
                    assert(sp_keyword("return"@) == Some(TokenType::Return));
                } else if i == 13 {
                    assert(sp_keyword("parent"@) == Some(TokenType::Super));
                } else if i == 14 {
                    assert(sp_keyword("this"@) == Some(TokenType::This));
                } else if i == 15 {
                    assert(sp_keyword("let"@) == Some(TokenType::Var));
                }
            }
            assert forall|t: Seq<char>| (#[trigger] sp_keyword(t)) is Some implies exists|i: int|
                0 <= i < l.keywords@.len() && (#[trigger] l.keywords@[i].0@) == t by {
                if t == "and"@ {
                    assert(l.keywords@[0].0@ == t);
                } else if t == "or"@ {
                    assert(l.keywords@[1].0@ == t);
                } else if t == "class"@ {
                    assert(l.keywords@[2].0@ == t);
                } else if t == "else"@ {
                    assert(l.keywords@[3].0@ == t);
                } else if t == "true"@ {
                    assert(l.keywords@[4].0@ == t);
                } else if t == "false"@ {
                    assert(l.keywords@[5].0@ == t);
                } else if t == "for"@ {
                    assert(l.keywords@[6].0@ == t);
                } else if t == "while"@ {
                    assert(l.keywords@[7].0@ == t);
                } else if t == "fn"@ {
                    assert(l.keywords@[8].0@ == t);
                } else if t == "if"@ {
                    assert(l.keywords@[9].0@ == t);
                } else if t == "null"@ {
                    assert(l.keywords@[10].0@ == t);
                } else if t == "print"@ {
                    assert(l.keywords@[11].0@ == t);
                } else if t == "return"@ {
                    assert(l.keywords@[12].0@ == t);
                } else if t == "parent"@ {
                    assert(l.keywords@[13].0@ == t);
                } else if t == "this"@ {
                    assert(l.keywords@[14].0@ == t);
                } else if t == "let"@ {
                    assert(l.keywords@[15].0@ == t);
                }
            }
        }
        l
    }

    /// Looks a word up in the table.
    pub fn lookup(&self, text: &str) -> (r: Option<TokenType>)
        requires
            self.wf(),
        ensures
            r == sp_keyword(text@),
    {
        let n: usize = self.keywords.len();
        let mut i: usize = 0;
        loop
            invariant_except_break
                self.wf(),
                n == self.keywords@.len(),
                0 <= i <= n,
                forall|j: int| 0 <= j < i ==> (#[trigger] self.keywords@[j].0@) != text@,
            ensures
                sp_keyword(text@) is None,
            decreases n - i,
        {
            if i >= n {
                proof {
                    if sp_keyword(text@) is Some {
                        let w = choose|j: int|
                            0 <= j < self.keywords@.len() && (#[trigger] self.keywords@[j].0@)
                                == text@;
                        assert(self.keywords@[w].0@ == text@);
                    }
                }
                break ;
            }
            if str_eq(self.keywords[i].0.as_str(), text) {
                proof {
                    assert(sp_keyword(self.keywords@[i as int].0@) == Some(
                        self.keywords@[i as int].1,
                    ));
                }
                return Some(self.keywords[i].1);
            }
            i = i + 1;
        }
        None
    }
}

} // verus!
