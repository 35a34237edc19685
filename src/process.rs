//! The whole run on one input: extract, order, then emit the declaration and
//! the selected capabilities.

use vstd::prelude::*;
use crate::config::{FileArgs, capabilities_of, dialect_of};
use crate::emit::{Capability, capability_text, enum_text, push_capability, push_enum};
use crate::error::DeriveError;
use crate::scan::{ScanFailure, extract, extracted, reports};
use crate::symbol::{CEnum, Sym, canonicalize, sort_by_value, syms};

verus! {

/// The type name used when none is given.
pub const DEFAULT_TYPE_NAME: &'static str = "Name";

pub open spec fn enum_name_of(a: FileArgs) -> Seq<char> {
    match a.name {
        Some(n) => n@,
        None => DEFAULT_TYPE_NAME@,
    }
}

pub open spec fn derive_of(a: FileArgs) -> Option<Seq<char>> {
    match a.derive {
        Some(d) => Some(d@),
        None => None,
    }
}

/// The texts of the capabilities `caps`, one after the other.
pub open spec fn capabilities_text(caps: Seq<Capability>, name: Seq<char>, hex: bool, t: Seq<Sym>) -> Seq<
    char,
>
    decreases caps.len(),
{
    if caps.len() == 0 {
        Seq::empty()
    } else {
        capabilities_text(caps.drop_last(), name, hex, t) + capability_text(
            caps.last(),
            name,
            hex,
            t,
        )
    }
}

/// Everything that is written for the table `t` under the arguments `a`.
pub open spec fn generated(a: FileArgs, t: Seq<Sym>) -> Seq<char> {
    enum_text(enum_name_of(a), derive_of(a), a.hex, t) + capabilities_text(
        capabilities_of(a),
        enum_name_of(a),
        a.hex,
        t,
    )
}

/// What a run on `text` under `a` yields: the generated text for the table of
/// `text`, or why the text yields no constants, or `None` for an empty table.
pub open spec fn process_outcome(text: Seq<char>, a: FileArgs) -> Result<Option<Seq<char>>, ScanFailure> {
    match extracted(text, dialect_of(a)) {
        Err(tok) => Err(tok),
        Ok(m) => if m.len() == 0 {
            Ok(None)
        } else {
            Ok(Some(generated(a, sort_by_value(m))))
        },
    }
}

/// Generates the code for the constants in `text`: the enum declaration, then
/// each capability that `file_args` selects. Fails as `extract` does, and with
/// `EmptyTable` when the text holds no constant.
pub fn process(text: &str, file_args: &FileArgs) -> (r: Result<String, DeriveError>)
    ensures
        match process_outcome(text@, *file_args) {
            Err(f) => r is Err && reports(r->Err_0, f),
            Ok(None) => r is Err && r->Err_0 is EmptyTable,
            Ok(Some(out)) => r is Ok && r->Ok_0@ == out,
        },
{
    let caps = file_args.capabilities();
    let found = match extract(text, file_args.dialect()) {
        Ok(v) => v,
        Err(e) => {
            return Err(e);
        },
    };
    let table: Vec<CEnum> = match canonicalize(found) {
        Ok(t) => t,
        Err(e) => {
            return Err(e);
        },
    };
    let name: &str = match &file_args.name {
        Some(n) => n.as_str(),
        None => DEFAULT_TYPE_NAME,
    };
    let derive: Option<&str> = match &file_args.derive {
        Some(d) => Some(d.as_str()),
        None => None,
    };
    let mut out = String::new();
    push_enum(&mut out, name, derive, file_args.hex, &table);
    let ghost head = out@;
    let mut i: usize = 0;
    assert(caps@.subrange(0, 0) =~= Seq::<Capability>::empty());
    assert(head + capabilities_text(caps@.subrange(0, 0), name@, file_args.hex, syms(table@))
        =~= head);
    while i < caps.len()
        invariant
            i <= caps.len(),
            table@.len() > 0,
            out@ == head + capabilities_text(
                caps@.subrange(0, i as int),
                name@,
                file_args.hex,
                syms(table@),
            ),
        decreases caps.len() - i,
    {
        push_capability(&mut out, caps[i], name, file_args.hex, &table);
        assert(caps@.subrange(0, i + 1).drop_last() =~= caps@.subrange(0, i as int));
        i = i + 1;
        assert(out@ =~= head + capabilities_text(
            caps@.subrange(0, i as int),
            name@,
            file_args.hex,
            syms(table@),
        ));
    }
    assert(caps@.subrange(0, caps.len() as int) =~= caps@);
    Ok(out)
}

} // verus!
