use vstd::prelude::*;

use crate::data::domain_controller::{dc_eq_spec, DomainController};
use crate::strutil::str_eq;

verus! {

/// Some entry in the sequence serves the given domain name.
pub open spec fn contains_name(s: Seq<DomainController>, n: Seq<char>) -> bool {
    exists|i: int| 0 <= i < s.len() && (#[trigger] s[i]).domain_name@ == n
}

/// All domain names in the sequence are distinct.
pub open spec fn unique_names(s: Seq<DomainController>) -> bool {
    forall|i: int, j: int|
        0 <= i < j < s.len() ==> (#[trigger] s[i]).domain_name@ != (
        #[trigger] s[j]).domain_name@
}

/// Pointwise deep equality of server-entry sequences.
pub open spec fn dc_seq_eq(a: Seq<DomainController>, b: Seq<DomainController>) -> bool {
    a.len() == b.len() && forall|i: int| 0 <= i < a.len() ==> dc_eq_spec(#[trigger] a[i], b[i])
}

/// The keyed collection of known servers; one entry per domain name.
#[derive(Debug)]
pub struct DomainControllerStore {
    domain_controllers: Vec<DomainController>,
}

impl DomainControllerStore {
    /// The stored entries, in insertion order.
    pub closed spec fn dcs(&self) -> Seq<DomainController> {
        self.domain_controllers@
    }

    /// Well-formedness: at most one entry per domain name.
    pub closed spec fn wf(&self) -> bool {
        unique_names(self.domain_controllers@)
    }

    /// Create an empty server store.
    pub fn new() -> (r: DomainControllerStore)
        ensures
            r.wf(),
            r.dcs().len() == 0,
    {
        DomainControllerStore { domain_controllers: Vec::new() }
    }

    /// Position of the entry serving the given domain name, if any.
    fn find_name(&self, domain_name: &str) -> (r: Option<usize>)
        ensures
            r matches Some(i) ==> 0 <= i < self.dcs().len() && self.dcs()[i as int].domain_name@
                == domain_name@,
            r is None ==> !contains_name(self.dcs(), domain_name@),
    {
        let mut i: usize = 0;
        while i < self.domain_controllers.len()
            invariant
                0 <= i <= self.dcs().len(),
                forall|j: int| 0 <= j < i ==> (#[trigger] self.dcs()[j]).domain_name@ != domain_name@,
            decreases self.dcs().len() - i,
        {
            if str_eq(self.domain_controllers[i].domain_name.as_str(), domain_name) {
                return Option::Some(i);
            }
            i = i + 1;
        }
        Option::None
    }

    /// Insert or overwrite the entry for the server's domain name: a re-added
    /// name replaces the old entry, last write wins.
    pub fn add_domain_controller(&mut self, domain_controller: DomainController)
        requires
            old(self).wf(),
        ensures
            final(self).wf(),
            !contains_name(old(self).dcs(), domain_controller.domain_name@) ==> final(self).dcs()
                == old(self).dcs().push(domain_controller),
            contains_name(old(self).dcs(), domain_controller.domain_name@) ==> exists|i: int|
                0 <= i < old(self).dcs().len() && (#[trigger] old(self).dcs()[i]).domain_name@
                    == domain_controller.domain_name@ && final(self).dcs() == old(
                    self,
                ).dcs().update(i, domain_controller),
    {
        let ghost old_dcs = self.domain_controllers@;
        let ghost dc = domain_controller;
        match self.find_name(domain_controller.domain_name.as_str()) {
            Option::Some(i) => {
                let _ = self.domain_controllers.remove(i);
                self.domain_controllers.insert(i, domain_controller);
                proof {
                    assert(self.domain_controllers@ =~= old_dcs.update(i as int, dc));
                    assert forall|a: int, b: int|
                        0 <= a < b < self.domain_controllers@.len() implies (
                    #[trigger] self.domain_controllers@[a]).domain_name@ != (
                    #[trigger] self.domain_controllers@[b]).domain_name@ by {
                        assert(old_dcs[a].domain_name@ != old_dcs[b].domain_name@);
                        if a != i {
                            assert(self.domain_controllers@[a] == old_dcs[a]);
                        }
                        if b != i {
                            assert(self.domain_controllers@[b] == old_dcs[b]);
                        }
                    }
                }
            },
            Option::None => {
                self.domain_controllers.push(domain_controller);
                proof {
                    assert forall|a: int, b: int|
                        0 <= a < b < self.domain_controllers@.len() implies (
                    #[trigger] self.domain_controllers@[a]).domain_name@ != (
                    #[trigger] self.domain_controllers@[b]).domain_name@ by {
                        assert(self.domain_controllers@[a] == old_dcs[a]);
                        if b < old_dcs.len() {
                            assert(self.domain_controllers@[b] == old_dcs[b]);
                        } else {
                            assert(!contains_name(old_dcs, dc.domain_name@));
                        }
                    }
                }
            },
        }
    }

    /// Look up the entry serving a domain name.
    pub fn get_domain_controller(&self, domain_name: &str) -> (r: Option<&DomainController>)
        ensures
            r is Some <==> contains_name(self.dcs(), domain_name@),
            r matches Some(d) ==> d.domain_name@ == domain_name@ && exists|i: int|
                0 <= i < self.dcs().len() && #[trigger] self.dcs()[i] == *d,
    {
        match self.find_name(domain_name) {
            Option::Some(i) => {
                proof {
                    assert(self.dcs()[i as int] == self.dcs()[i as int]);
                }
                Option::Some(&self.domain_controllers[i])
            },
            Option::None => Option::None,
        }
    }

    /// Remove the entry serving a domain name, if present.
    pub fn remove_domain_controller(&mut self, domain_name: &str)
        requires
            old(self).wf(),
        ensures
            final(self).wf(),
            !contains_name(old(self).dcs(), domain_name@) ==> *final(self) == *old(self),
            contains_name(old(self).dcs(), domain_name@) ==> exists|i: int|
                0 <= i < old(self).dcs().len() && (#[trigger] old(self).dcs()[i]).domain_name@
                    == domain_name@ && final(self).dcs() == old(self).dcs().remove(i),
            !contains_name(final(self).dcs(), domain_name@),
    {
        let ghost old_dcs = self.domain_controllers@;
        match self.find_name(domain_name) {
            Option::Some(i) => {
                let _ = self.domain_controllers.remove(i);
                proof {
                    let t = self.domain_controllers@;
                    assert forall|a: int, b: int|
                        0 <= a < b < t.len() implies (#[trigger] t[a]).domain_name@ != (
                    #[trigger] t[b]).domain_name@ by {
                        let a0 = if a < i as int {
                            a
                        } else {
                            a + 1
                        };
                        let b0 = if b < i as int {
                            b
                        } else {
                            b + 1
                        };
                        assert(t[a] == old_dcs[a0]);
                        assert(t[b] == old_dcs[b0]);
                    }
                    assert forall|a: int| 0 <= a < t.len() implies (
                    #[trigger] t[a]).domain_name@ != domain_name@ by {
                        let a0 = if a < i as int {
                            a
                        } else {
                            a + 1
                        };
                        assert(t[a] == old_dcs[a0]);
                        if a0 != i as int {
                            assert(old_dcs[a0].domain_name@ != old_dcs[i as int].domain_name@);
                        }
                    }
                }
            },
            Option::None => {},
        }
    }

    /// Copies of all stored entries, in store order.
    pub fn list_domain_controllers(&self) -> (r: Vec<DomainController>)
        ensures
            dc_seq_eq(r@, self.dcs()),
    {
        let mut out: Vec<DomainController> = Vec::new();
        let mut i: usize = 0;
        while i < self.domain_controllers.len()
            invariant
                0 <= i <= self.dcs().len(),
                out@.len() == i,
                forall|j: int| 0 <= j < i ==> dc_eq_spec(#[trigger] out@[j], self.dcs()[j]),
            decreases self.dcs().len() - i,
        {
            out.push(self.domain_controllers[i].clone());
            i = i + 1;
        }
        out
    }
}

} // verus!
