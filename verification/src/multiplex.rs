//! Several services on one connection: a call names its service in front of
//! its method, `Service:method`. Only calls are marked; what comes back
//! bears the bare method name.

use crate::message::MessageKind;
use vstd::prelude::*;
use vstd::string::StringExecFns;

verus! {

/// The name that separates service and method.
pub open spec fn separator() -> Seq<char> {
    seq![':']
}

/// The method name of a call to `method` of `service`.
pub open spec fn multiplexed(service: Seq<char>, method: Seq<char>) -> Seq<char> {
    service + separator() + method
}

/// The method name that a message of `kind` for `method` bears on the wire,
/// on a connection that is shared under the name `service`, if any.
pub open spec fn wire_name(service: Option<Seq<char>>, kind: MessageKind, method: Seq<char>) -> Seq<
    char,
> {
    match service {
        Some(s) if kind == MessageKind::Call || kind == MessageKind::Oneway => multiplexed(
            s,
            method,
        ),
        _ => method,
    }
}

/// The method name of a call to `method` of `service`.
pub fn multiplexed_name(service: &str, method: &str) -> (name: String)
    ensures
        name@ == multiplexed(service@, method@),
{
    let mut name = String::from_str(service);
    proof {
        reveal_strlit(":");
    }
    assert(":"@ =~= separator());
    name.append(":");
    name.append(method);
    name
}

/// The method name that a message of `kind` for `method` bears on the wire.
pub fn name_on_wire(service: &Option<String>, kind: MessageKind, method: &str) -> (name: String)
    ensures
        name@ == wire_name(
            match service {
                Some(s) => Some(s@),
                None => None,
            },
            kind,
            method@,
        ),
{
    match service {
        Some(s) => match kind {
            MessageKind::Call | MessageKind::Oneway => multiplexed_name(s.as_str(), method),
            _ => String::from_str(method),
        },
        None => String::from_str(method),
    }
}

} // verus!
