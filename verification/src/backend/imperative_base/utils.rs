//! Names of the variables that generated code uses for a type node, from the
//! node's numeric identifier.

use vstd::prelude::*;

use crate::text::{decimal_text, push_decimal};

verus! {

/// `type_<ident>_<name>`: a named helper variable of a type node.
pub fn var_for(name: &str, ident: u64) -> (res: String)
    ensures
        res@ == "type_"@ + decimal_text(ident as nat) + "_"@ + name@,
{
    let mut out = "type_".to_owned();
    push_decimal(&mut out, ident);
    out.append("_");
    out.append(name);
    out
}

/// `type_var_<ident>`: the variable that holds a type node's input.
pub fn input_for(ident: u64) -> (res: String)
    ensures
        res@ == "type_var_"@ + decimal_text(ident as nat),
{
    let mut out = "type_var_".to_owned();
    push_decimal(&mut out, ident);
    out
}

/// `type_var_<ident>`: the variable that receives a type node's output.
pub fn output_for(ident: u64) -> (res: String)
    ensures
        res@ == "type_var_"@ + decimal_text(ident as nat),
{
    let mut out = "type_var_".to_owned();
    push_decimal(&mut out, ident);
    out
}

} // verus!
