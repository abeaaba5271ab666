use vstd::prelude::*;

verus! {

/// Whether the source text is exactly one Rust type, as syn reads types.
pub uninterp spec fn is_type(text: Seq<char>) -> bool;

/// Whether the source text is exactly one function parameter (a receiver
/// such as `&self`, or `pattern: Type`), as syn reads parameters.
pub uninterp spec fn is_fn_arg(text: Seq<char>) -> bool;

/// Relies on proc_macro2's `TokenStream::from_str` and
/// `syn::parse2::<syn::Type>`: the text lexes, and all of it parses as one
/// type.
#[verifier::external_body]
pub(crate) fn parses_as_type(text: &String) -> (r: bool)
    ensures
        r == is_type(text@),
{
    match text.parse::<proc_macro2::TokenStream>() {
        Ok(tokens) => syn::parse2::<syn::Type>(tokens).is_ok(),
        Err(_) => false,
    }
}

/// Relies on proc_macro2's `TokenStream::from_str` and
/// `syn::parse2::<syn::FnArg>`: the text lexes, and all of it parses as one
/// parameter.
#[verifier::external_body]
pub(crate) fn parses_as_fn_arg(text: &String) -> (r: bool)
    ensures
        r == is_fn_arg(text@),
{
    match text.parse::<proc_macro2::TokenStream>() {
        Ok(tokens) => syn::parse2::<syn::FnArg>(tokens).is_ok(),
        Err(_) => false,
    }
}

} // verus!
