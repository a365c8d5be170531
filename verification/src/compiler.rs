use vstd::prelude::*;
use vstd::string::StrSliceExecFns;
use crate::lexer::ByteIter;
use crate::lexer::Lexer;
use crate::lexer::token_stream;
use crate::object::Program;
use crate::parser::PFail;
use crate::parser::Parser;
use crate::parser::ParserError;
use crate::parser::SpecParse;
use crate::parser::parse_spec;

verus! {

/// What a source text compiles to: its bytes, with carriage returns
/// dropped, are lexed into tokens and the tokens parsed into a program.
pub open spec fn compile_spec(bytes: Seq<u8>) -> SpecParse {
    parse_spec(token_stream(bytes.filter(|b: u8| b != 13), 0))
}

/// Compiles one source text into a program, naming the source for
/// diagnostics.
pub fn compile_string(code: &str, filename: &str) -> (r: Result<Program, ParserError>)
    ensures
        ({
            let sp = compile_spec(vstd::utf8::encode_utf8(code@));
            match r {
                Ok(prog) => sp == SpecParse::Parsed(prog@),
                Err(e) => {
                    &&& (e is InvalidCode) <==> sp == SpecParse::Fail(PFail::Invalid)
                    &&& (e is ExpectedToken) <==> sp == SpecParse::Fail(PFail::Expected)
                    &&& (e is InvalidCode) || (e is ExpectedToken)
                },
            }
        }),
{
    let bytes = code.as_bytes_vec();
    let mut lex = Lexer::new(ByteIter::new(bytes), filename);
    let parser = Parser::new(&mut lex);
    parser.parse()
}

} // verus!
