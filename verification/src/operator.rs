//! The binary operators of the language and their spelling.
use vstd::prelude::*;
use vstd::string::*;

verus! {

#[derive(Clone, Copy, Debug, PartialEq, Eq, Structural)]
pub enum Operator {
    Plus,
    Minus,
    Star,
    Slash,
    Mod,
    LessThan,
    GreaterThan,
    Amp,
    AmpAmp,
    Pipe,
    PipePipe,
}

impl Operator {
    /// How the operator is written.
    pub open spec fn symbol(self) -> Seq<char> {
        match self {
            Operator::Plus => seq!['+'],
            Operator::Minus => seq!['-'],
            Operator::Star => seq!['*'],
            Operator::Slash => seq!['/'],
            Operator::Mod => seq!['%'],
            Operator::LessThan => seq!['<'],
            Operator::GreaterThan => seq!['>'],
            Operator::Amp => seq!['&'],
            Operator::AmpAmp => seq!['&', '&'],
            Operator::Pipe => seq!['|'],
            Operator::PipePipe => seq!['|', '|'],
        }
    }

    /// The operators that compute a number from two numbers, which only the
    /// host's arithmetic can do: the machine hands these out.
    pub open spec fn is_numeric(self) -> bool {
        self == Operator::Plus || self == Operator::Minus || self == Operator::Star || self
            == Operator::Slash || self == Operator::Mod || self == Operator::Amp || self
            == Operator::Pipe
    }

    /// `&` and `|`, which take whole numbers only.
    pub open spec fn is_bitwise(self) -> bool {
        self == Operator::Amp || self == Operator::Pipe
    }

    /// `&&` and `||`, which go by truthiness and take every value.
    pub open spec fn is_logical(self) -> bool {
        self == Operator::AmpAmp || self == Operator::PipePipe
    }

    /// Reads an operator from its spelling: `Some` exactly for the eleven
    /// spellings, and then the operator so written.
    pub fn from(op: &'static str) -> (r: Option<Operator>)
        ensures
            match r {
                Some(o) => o.symbol() == op@,
                None => forall|o: Operator| o.symbol() != op@,
            },
    {
        let n = op.unicode_len();
        if n == 1 {
            let c = op.get_char(0);
            let r = if c == '+' {
                Some(Operator::Plus)
            } else if c == '-' {
                Some(Operator::Minus)
            } else if c == '*' {
                Some(Operator::Star)
            } else if c == '/' {
                Some(Operator::Slash)
            } else if c == '%' {
                Some(Operator::Mod)
            } else if c == '<' {
                Some(Operator::LessThan)
            } else if c == '>' {
                Some(Operator::GreaterThan)
            } else if c == '&' {
                Some(Operator::Amp)
            } else if c == '|' {
                Some(Operator::Pipe)
            } else {
                None
            };
            proof {
                match r {
                    Some(o) => {
                        assert(o.symbol() =~= op@);
                    },
                    None => {
                        assert forall|o: Operator| o.symbol() != op@ by {
                            if o.symbol() == op@ {
                                assert(o.symbol()[0] == c);
                            }
                        }
                    },
                }
            }
            r
        } else if n == 2 {
            let c = op.get_char(0);
            let d = op.get_char(1);
            let r = if c == '&' && d == '&' {
                Some(Operator::AmpAmp)
            } else if c == '|' && d == '|' {
                Some(Operator::PipePipe)
            } else {
                None
            };
            proof {
                match r {
                    Some(o) => {
                        assert(o.symbol() =~= op@);
                    },
                    None => {
                        assert forall|o: Operator| o.symbol() != op@ by {
                            if o.symbol() == op@ {
                                assert(o.symbol()[0] == c);
                                assert(o.symbol()[1] == d);
                            }
                        }
                    },
                }
            }
            r
        } else {
            proof {
                assert forall|o: Operator| o.symbol() != op@ by {
                    assert(o.symbol().len() == 1 || o.symbol().len() == 2);
                }
            }
            None
        }
    }

    /// The spelling of the operator.
    pub fn to_str(&self) -> (s: &'static str)
        ensures
            s@ == self.symbol(),
    {
        proof {
            reveal_strlit("+");
            reveal_strlit("-");
            reveal_strlit("*");
            reveal_strlit("/");
            reveal_strlit("%");
            reveal_strlit("<");
            reveal_strlit(">");
            reveal_strlit("&");
            reveal_strlit("&&");
            reveal_strlit("|");
            reveal_strlit("||");
        }
        let s = match self {
            Operator::Plus => "+",
            Operator::Minus => "-",
            Operator::Star => "*",
            Operator::Slash => "/",
            Operator::Mod => "%",
            Operator::LessThan => "<",
            Operator::GreaterThan => ">",
            Operator::Amp => "&",
            Operator::AmpAmp => "&&",
            Operator::Pipe => "|",
            Operator::PipePipe => "||",
        };
        assert(s@ =~= self.symbol());
        s
    }
}

/// No two operators are written alike, so reading the spelling of an
/// operator gives that operator back.
pub proof fn lemma_symbol_injective(a: Operator, b: Operator)
    requires
        a.symbol() == b.symbol(),
    ensures
        a == b,
{
    let s = a.symbol();
    let t = b.symbol();
    assert(s.len() == t.len());
    assert(s[0] == t[0]);
    assert((a == Operator::AmpAmp || a == Operator::PipePipe) <==> s.len() == 2);
    assert((b == Operator::AmpAmp || b == Operator::PipePipe) <==> t.len() == 2);
}

} // verus!
