use vstd::prelude::*;
use vstd::string::StringExecFns;
use crate::names::names_seq;
use crate::resolver::ResolutionResult;

verus! {

/// The fixed marker put before every capability name, keeping the emitted
/// compilation symbols apart from unrelated symbols in the same namespace.
pub open spec fn symbol_of(name: Seq<char>) -> Seq<char> {
    "__scope_"@ + name
}

/// The compilation symbol for a capability name.
pub fn symbol_name(name: &str) -> (r: String)
    ensures
        r@ == symbol_of(name@),
{
    let mut s = <String as StringExecFns>::from_str("__scope_");
    s.append(name);
    s
}

/// One rendering directive: activate a symbol for this compilation, or
/// declare a symbol as a legal vocabulary member for static validation.
pub enum Directive {
    ActivateSymbol(String),
    DeclareLegalSymbol(String),
}

/// Renders a resolution result: one activation directive per activated
/// capability followed by one vocabulary directive per vocabulary member,
/// each carrying the prefixed symbol, in the sets' insertion order.
pub fn emit(result: &ResolutionResult) -> (r: Vec<Directive>)
    ensures
        r@.len() == result.activated.names().len() + result.vocabulary.names().len(),
        forall|i: int|
            0 <= i < result.activated.names().len() ==> ((#[trigger] r@[i])
                matches Directive::ActivateSymbol(s) && s@ == symbol_of(
                result.activated.names()[i],
            )),
        forall|i: int|
            result.activated.names().len() <= i < r@.len() ==> ((#[trigger] r@[i])
                matches Directive::DeclareLegalSymbol(s) && s@ == symbol_of(
                result.vocabulary.names()[i - result.activated.names().len()],
            )),
{
    let mut out: Vec<Directive> = Vec::new();
    let a = result.activated.items();
    let ghost act = result.activated.names();
    let mut i: usize = 0;
    while i < a.len()
        invariant
            i <= a@.len(),
            act == names_seq(a@),
            out@.len() == i,
            forall|q: int|
                0 <= q < i ==> ((#[trigger] out@[q]) matches Directive::ActivateSymbol(s) && s@
                    == symbol_of(act[q])),
        decreases a@.len() - i,
    {
        let sym = symbol_name(a[i].as_str());
        out.push(Directive::ActivateSymbol(sym));
        i = i + 1;
    }
    let v = result.vocabulary.items();
    let ghost voc = result.vocabulary.names();
    let ghost base = out@.len() as int;
    let mut j: usize = 0;
    while j < v.len()
        invariant
            j <= v@.len(),
            voc == names_seq(v@),
            base == act.len(),
            out@.len() == base + j,
            forall|q: int|
                0 <= q < base ==> ((#[trigger] out@[q]) matches Directive::ActivateSymbol(s) && s@
                    == symbol_of(act[q])),
            forall|q: int|
                base <= q < out@.len() ==> ((#[trigger] out@[q])
                    matches Directive::DeclareLegalSymbol(s) && s@ == symbol_of(voc[q - base])),
        decreases v@.len() - j,
    {
        let sym = symbol_name(v[j].as_str());
        out.push(Directive::DeclareLegalSymbol(sym));
        j = j + 1;
    }
    out
}

} // verus!
