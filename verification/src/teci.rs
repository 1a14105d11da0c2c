use vstd::prelude::*;
use crate::envirnoment::{env_wf, EnvModel};
use crate::error::TeciError;
use crate::interpreter::{run_stmts, Interpreter};
use crate::parser::{p_program, parser_tokens_wf, spans_program, Parser};
use crate::scanner::{err_models, lemma_spec_scan_shape, spec_scan, tok_models, Scanner};
use crate::stmt::Stmt;
use crate::token::Token;
use crate::token_type::TokenType;

verus! {

/// Why a run failed: lexical errors (the program was never parsed), syntax
/// errors (the program was never executed), or the runtime error that
/// halted execution, together with the lines printed before the halt.
#[derive(Debug)]
pub enum RunError {
    Lexical(Vec<TeciError>),
    Syntax(Vec<TeciError>),
    Runtime(Vec<String>, TeciError),
}

/// The successful (or runtime-failing) outcome of a run reflects the
/// mathematical semantics: some statement sequence derives the scanned
/// tokens by the grammar, and the printed lines, the final environment and
/// the runtime error are exactly what executing that sequence from the
/// prior environment gives.
pub open spec fn run_reflects_semantics(
    env0: EnvModel,
    env1: EnvModel,
    scanned: Seq<crate::token::TokenModel>,
    r: Result<Vec<String>, RunError>,
) -> bool {
    exists|toks: Seq<Token>, stmts: Seq<Stmt>|
        {
            &&& #[trigger] spans_program(toks, stmts, 0, toks.len() - 1)
            &&& tok_models(toks) == scanned
            &&& ({
                let rm = run_stmts(env0, Seq::<Seq<char>>::empty(), stmts, 0);
                &&& env1 == rm.env
                &&& match r {
                    Ok(out) => rm.err is None && out@.map_values(|s: String| s@) == rm.out,
                    Err(RunError::Runtime(out, e)) => rm.err == Some(e@) && out@.map_values(
                        |s: String| s@,
                    ) == rm.out,
                    _ => false,
                }
            })
        }
}

/// The front-to-back pipeline: scan, parse, and interpret, with one
/// persistent interpreter, so that successive interactive lines behave as
/// one continuous program sharing a single global environment.
pub struct Teci {
    interpreter: Interpreter,
}

impl Teci {
    /// The current scope chain of the held interpreter.
    pub closed spec fn env_model(self) -> EnvModel {
        self.interpreter.env()
    }

    /// The held interpreter is ready: a well-formed scope chain and an
    /// empty output buffer.
    pub closed spec fn wf(self) -> bool {
        &&& env_wf(self.interpreter.env())
        &&& self.interpreter.env().len() >= 1
        &&& self.interpreter.out() == Seq::<Seq<char>>::empty()
    }

    pub fn new() -> (t: Teci)
        ensures
            t.wf(),
    {
        Teci { interpreter: Interpreter::new() }
    }

    /// Run one program: scan, parse only when no lexical error was found,
    /// execute only when no syntax error was found either, and hand back
    /// the printed lines or the reason the run failed.
    pub fn run(&mut self, source: String) -> (r: Result<Vec<String>, RunError>)
        requires
            old(self).wf(),
            source@.len() < usize::MAX,
        ensures
            final(self).wf(),
            ({
                let sm = spec_scan(source@, 0, 1);
                &&& (sm.errors.len() > 0 <==> r matches Err(RunError::Lexical(_)))
                &&& (r matches Err(RunError::Lexical(es)) ==> err_models(es@) == sm.errors)
                &&& (r matches Err(RunError::Syntax(es)) ==> es@.len() > 0)
                &&& (sm.errors.len() == 0 ==> exists|toks: Seq<Token>|
                    #![trigger tok_models(toks)]
                    {
                        &&& tok_models(toks) == sm.tokens
                        &&& ((r matches Err(RunError::Syntax(_))) <==> !(p_program(toks, 0)
                            matches Some(jc) && jc.1))
                    })
                &&& (sm.errors.len() == 0 && sm.tokens.len() == 1 ==> r is Ok
                    && r->Ok_0@.len() == 0)
                &&& (sm.errors.len() == 0 && !(r matches Err(RunError::Syntax(_)))
                    ==> run_reflects_semantics(
                    old(self).env_model(),
                    final(self).env_model(),
                    sm.tokens,
                    r,
                ))
            }),
    {
        let mut scanner = Scanner::new(source);
        let (tokens, lex_errors) = scanner.scan_tokens();
        let ghost gtoks = tokens@;
        if lex_errors.len() > 0 {
            return Err(RunError::Lexical(lex_errors));
        }
        proof {
            lemma_spec_scan_shape(source@, 0, 1);
            let tm = tok_models(tokens@);
            assert forall|k: int| 0 <= k < tokens@.len() implies (#[trigger] tokens@[k]).ttype
                == tm[k].kind by {}
            assert(parser_tokens_wf(tokens@));
            if tm.len() == 1 {
                assert(tm[0] == tm.last());
                assert(gtoks[0].ttype == TokenType::Eof);
            }
        }
        let mut parser = Parser::new(tokens);
        let (statements, parse_errors) = parser.parse();
        if parse_errors.len() > 0 {
            proof {
                assert(tok_models(gtoks) == spec_scan(source@, 0, 1).tokens);
            }
            return Err(RunError::Syntax(parse_errors));
        }
        let ghost gstmts = statements@;
        proof {
            assert(spans_program(gtoks, gstmts, 0, gtoks.len() - 1));
            assert(tok_models(gtoks) == spec_scan(source@, 0, 1).tokens);
        }
        match self.interpreter.interpret(&statements) {
            Ok(_) => {
                let out = self.interpreter.take_output();
                proof {
                    assert(spans_program(gtoks, gstmts, 0, gtoks.len() - 1));
                    if tok_models(gtoks).len() == 1 {
                        assert(gstmts =~= Seq::<Stmt>::empty());
                        assert(out@.map_values(|s: String| s@).len() == out@.len());
                        assert(out@.len() == 0);
                    }
                }
                Ok(out)
            },
            Err(e) => {
                let out = self.interpreter.take_output();
                proof {
                    assert(spans_program(gtoks, gstmts, 0, gtoks.len() - 1));
                }
                Err(RunError::Runtime(out, e))
            },
        }
    }
}

} // verus!
