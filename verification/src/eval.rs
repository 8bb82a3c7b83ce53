use vstd::prelude::*;
use vstd::string::StringExecFns;
use crate::context;
use crate::context::Context;
use crate::expr::Expr;

verus! {

/// Turns an address expression into a 64-bit address, as
/// [`context::spec_eval`] describes: a literal is its own value, a name
/// goes through the symbol map and falls back to zero, the empty
/// expression is zero.
pub fn eval(ctx: &Context, e: Expr) -> (r: u64)
    ensures
        r == context::spec_eval(*ctx, e@),
{
    match e {
        Expr::Empty => 0,
        Expr::Num(v) => {
            #[verifier::truncate]
            let r = v as u64;
            r
        },
        Expr::Ident(v) => {
            match ctx.resolve(v.as_str()) {
                Some(v) => v,
                None => 0,
            }
        },
    }
}

} // verus!
