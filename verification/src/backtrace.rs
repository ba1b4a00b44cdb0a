use vstd::prelude::*;

verus! {

/// The readable name that a mangled symbol name stands for.
pub uninterp spec fn demangled(name: Seq<char>) -> Seq<char>;

/// The address range of one symbol of the kernel's symbol table.
#[derive(Clone, Copy, Debug, PartialEq, Eq, Structural)]
pub struct Symbol {
    pub value: u64,
    pub size: u64,
}

impl Symbol {
    /// The symbol's range, from its value on, holds `addr`.
    pub open spec fn holds(&self, addr: u64) -> bool {
        self.value <= addr < self.value + self.size
    }
}

/// `i` is the last symbol of the table whose range holds `addr`.
pub open spec fn is_last_holder(symbols: Seq<Symbol>, addr: u64, i: int) -> bool {
    &&& 0 <= i < symbols.len()
    &&& symbols[i].holds(addr)
    &&& forall|j: int| i < j < symbols.len() ==> !(#[trigger] symbols[j]).holds(addr)
}

/// No symbol of the table holds `addr`.
pub open spec fn no_holder(symbols: Seq<Symbol>, addr: u64) -> bool {
    forall|j: int| 0 <= j < symbols.len() ==> !(#[trigger] symbols[j]).holds(addr)
}

/// The symbol that the return address `rip` lies in: of all symbols whose
/// range holds the address, the last in the table.
pub fn find_symbol(symbols: &[Symbol], rip: u64) -> (r: Option<usize>)
    ensures
        match r {
            Some(i) => is_last_holder(symbols@, rip, i as int),
            None => no_holder(symbols@, rip),
        },
{
    let mut found: Option<usize> = None;
    let mut i: usize = 0;
    while i < symbols.len()
        invariant
            i <= symbols@.len(),
            match found {
                Some(k) => {
                    &&& k < i
                    &&& symbols@[k as int].holds(rip)
                    &&& forall|j: int| k < j < i ==> !(#[trigger] symbols@[j]).holds(rip)
                },
                None => forall|j: int| 0 <= j < i ==> !(#[trigger] symbols@[j]).holds(rip),
            },
        decreases symbols@.len() - i,
    {
        let symbol = symbols[i];
        if rip >= symbol.value && rip - symbol.value < symbol.size {
            found = Some(i);
        }
        i += 1;
    }
    found
}

/// `rustc_demangle::demangle`, printed: the readable form of a mangled
/// symbol name. The contract only gives the result its name: the same name
/// always demangles to the same text.
#[verifier::external_body]
fn demangle(name: &str) -> (r: String)
    ensures
        r@ == demangled(name@),
{
    format!("{}", rustc_demangle::demangle(name))
}

/// The readable name of the function that the return address `rip` lies in,
/// from the symbols of the kernel and their mangled names. `None` where no
/// symbol holds the address.
pub fn symbol_name(symbols: &[Symbol], names: &[String], rip: u64) -> (r: Option<String>)
    requires
        names@.len() == symbols@.len(),
    ensures
        match r {
            Some(name) => exists|i: int|
                #[trigger] is_last_holder(symbols@, rip, i) && name@ == demangled(names@[i]@),
            None => no_holder(symbols@, rip),
        },
{
    match find_symbol(symbols, rip) {
        Some(i) => Some(demangle(names[i].as_str())),
        None => None,
    }
}

} // verus!
