//! Choosing the address to serve on among the machine's network interfaces.
use vstd::prelude::*;
use vstd::string::StringExecFns;

verus! {

/// One address of a network interface.
pub struct Interface {
    pub name: String,
    /// The address in its usual text form.
    pub addr: String,
    pub is_ipv6: bool,
}

/// Some interface in `ifaces` is called `name`.
pub open spec fn has_interface(ifaces: Seq<Interface>, name: Seq<char>) -> bool {
    exists|i: int| 0 <= i < ifaces.len() && (#[trigger] ifaces[i]).name@ == name
}

/// The entry at `i` is called `name` and has the wanted address family.
pub open spec fn fits(ifaces: Seq<Interface>, i: int, name: Seq<char>, ipv6: bool) -> bool {
    ifaces[i].name@ == name && ifaces[i].is_ipv6 == ipv6
}

/// Whether `iface` names an interface: `localhost`, or one of `ifaces`.
pub fn interface_exists(iface: &str, ifaces: &Vec<Interface>) -> (r: bool)
    ensures
        r == (iface@ == "localhost"@ || has_interface(ifaces@, iface@)),
{
    let wanted = String::from_str(iface);
    let local = String::from_str("localhost");
    if wanted == local {
        return true;
    }
    let mut i: usize = 0;
    while i < ifaces.len()
        invariant
            i <= ifaces@.len(),
            wanted@ == iface@,
            forall|j: int| 0 <= j < i ==> (#[trigger] ifaces@[j]).name@ != iface@,
        decreases ifaces@.len() - i,
    {
        if ifaces[i].name == wanted {
            return true;
        }
        i = i + 1;
    }
    false
}

/// The address to serve on for interface `iface`: the loopback address of the wanted
/// family for `localhost`, else the first address of `iface` in `ifaces` of that
/// family, else an error that names the interface.
pub fn get_iface_addr(iface: &str, ipv6: bool, ifaces: &Vec<Interface>) -> (r: Result<
    String,
    String,
>)
    ensures
        iface@ == "localhost"@ ==> (r matches Ok(a) && a@ == if ipv6 {
            "::1"@
        } else {
            "127.0.0.1"@
        }),
        iface@ != "localhost"@ ==> match r {
            Ok(a) => exists|i: int|
                0 <= i < ifaces@.len() && fits(ifaces@, i, iface@, ipv6) && a@ == ifaces@[i].addr@
                    && forall|j: int| 0 <= j < i ==> !fits(ifaces@, j, iface@, ipv6),
            Err(m) => m@ == "Could not find a valid address for interface "@ + iface@ && forall|
                j: int,
            | 0 <= j < ifaces@.len() ==> !fits(ifaces@, j, iface@, ipv6),
        },
{
    let wanted = String::from_str(iface);
    let local = String::from_str("localhost");
    if wanted == local {
        return if ipv6 {
            Ok(String::from_str("::1"))
        } else {
            Ok(String::from_str("127.0.0.1"))
        };
    }
    let mut i: usize = 0;
    while i < ifaces.len()
        invariant
            i <= ifaces@.len(),
            wanted@ == iface@,
            iface@ != "localhost"@,
            forall|j: int| 0 <= j < i ==> !fits(ifaces@, j, iface@, ipv6),
        decreases ifaces@.len() - i,
    {
        if ifaces[i].name == wanted && ifaces[i].is_ipv6 == ipv6 {
            assert(fits(ifaces@, i as int, iface@, ipv6));
            return Ok(ifaces[i].addr.clone());
        }
        i = i + 1;
    }
    let mut m = String::from_str("Could not find a valid address for interface ");
    m.append(iface);
    Err(m)
}

} // verus!
