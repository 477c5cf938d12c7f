use vstd::prelude::*;

verus! {

/// A kind of sensitive content that the catalog can detect.
#[derive(Clone, Copy, Debug, PartialEq, Eq, Structural)]
pub enum Category {
    Email,
    Url,
    IpAddress,
    SrvDns,
    MacAddress,
}

impl Category {
    /// The name under which the category is requested and reported.
    pub open spec fn spec_name(self) -> Seq<char> {
        match self {
            Category::Email => "email"@,
            Category::Url => "url"@,
            Category::IpAddress => "ip_address"@,
            Category::SrvDns => "srv_dns"@,
            Category::MacAddress => "mac_address"@,
        }
    }

    pub fn name(&self) -> (r: &'static str)
        ensures
            r@ == self.spec_name(),
    {
        match self {
            Category::Email => "email",
            Category::Url => "url",
            Category::IpAddress => "ip_address",
            Category::SrvDns => "srv_dns",
            Category::MacAddress => "mac_address",
        }
    }

    /// Every category, in the order of the built-in catalog.
    pub open spec fn spec_all() -> Seq<Category> {
        seq![
            Category::Email,
            Category::Url,
            Category::IpAddress,
            Category::SrvDns,
            Category::MacAddress,
        ]
    }

    pub fn all() -> (r: Vec<Category>)
        ensures
            r@ == Self::spec_all(),
    {
        let r = vec![
            Category::Email,
            Category::Url,
            Category::IpAddress,
            Category::SrvDns,
            Category::MacAddress,
        ];
        assert(r@ =~= Self::spec_all());
        r
    }
}

} // verus!
