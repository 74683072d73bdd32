use vstd::prelude::*;

verus! {

/// Domain name of a federated server, such as `misskey.io`.
#[derive(Debug)]
pub struct Host(pub String);

impl View for Host {
    type V = Seq<char>;

    open spec fn view(&self) -> Seq<char> {
        self.0@
    }
}

impl Clone for Host {
    fn clone(&self) -> (r: Host)
        ensures
            r@ == self@,
    {
        Host(self.0.clone())
    }
}

impl PartialEq for Host {
    fn eq(&self, o: &Host) -> (r: bool) {
        self.0 == o.0
    }
}

impl vstd::std_specs::cmp::PartialEqSpecImpl for Host {
    open spec fn obeys_eq_spec() -> bool {
        true
    }

    open spec fn eq_spec(&self, o: &Host) -> bool {
        self@ == o@
    }
}

impl Eq for Host {}

impl Host {
    pub fn as_str(&self) -> (r: &str)
        ensures
            r@ == self@,
    {
        self.0.as_str()
    }
}

impl From<String> for Host {
    fn from(value: String) -> (r: Host) {
        Host(value)
    }
}

impl vstd::std_specs::convert::FromSpecImpl<String> for Host {
    open spec fn obeys_from_spec() -> bool {
        true
    }

    open spec fn from_spec(v: String) -> Host {
        Host(v)
    }
}

} // verus!
