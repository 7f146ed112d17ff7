use vstd::prelude::*;
use vstd::utf8::encode_utf8;

verus! {

/// Where results for one server are posted, with extra request headers.
#[derive(Clone, Debug)]
pub struct WebhookConfig {
    pub url: String,
    pub headers: Vec<(String, String)>,
}

/// Audit-sink settings: webhooks keyed by server name, `*` matching any.
/// Names need not be unique: a lookup takes the first entry that matches.
#[derive(Clone, Debug)]
pub struct Config {
    pub webhooks: Vec<(String, WebhookConfig)>,
}

/// The wildcard server name `*`.
pub open spec fn is_wildcard(name: Seq<char>) -> bool {
    encode_utf8(name) == seq![0x2au8]
}

/// Index of the first webhook from `k` on whose server name satisfies `f`.
pub open spec fn first_webhook(ws: Seq<(String, WebhookConfig)>, f: spec_fn(Seq<char>) -> bool, k: int) -> Option<int>
    decreases ws.len() - k,
{
    if k < 0 || k >= ws.len() {
        None
    } else if f(ws[k].0@) {
        Some(k)
    } else {
        first_webhook(ws, f, k + 1)
    }
}

/// The webhook configured for `server`: the first one named exactly so,
/// else the first wildcard one.
pub open spec fn webhook_for(ws: Seq<(String, WebhookConfig)>, server: Seq<char>) -> Option<int> {
    match first_webhook(ws, |n: Seq<char>| n == server, 0) {
        Some(i) => Some(i),
        None => first_webhook(ws, |n: Seq<char>| is_wildcard(n), 0),
    }
}

impl Config {
    /// Finds the webhook configured for a server name, falling back to the
    /// wildcard entry.
    pub fn get_webhook(&self, server_name: &String) -> (r: Option<&WebhookConfig>)
        ensures
            match webhook_for(self.webhooks@, server_name@) {
                Some(i) => r == Some(&self.webhooks@[i].1),
                None => r is None,
            },
    {
        let mut k: usize = 0;
        while k < self.webhooks.len()
            invariant
                k <= self.webhooks@.len(),
                first_webhook(self.webhooks@, |n: Seq<char>| n == server_name@, k as int)
                    == first_webhook(self.webhooks@, |n: Seq<char>| n == server_name@, 0),
            decreases self.webhooks.len() - k,
        {
            if self.webhooks[k].0 == *server_name {
                return Some(&self.webhooks[k].1);
            }
            k = k + 1;
        }
        let mut k: usize = 0;
        while k < self.webhooks.len()
            invariant
                k <= self.webhooks@.len(),
                first_webhook(self.webhooks@, |n: Seq<char>| n == server_name@, 0) is None,
                first_webhook(self.webhooks@, |n: Seq<char>| is_wildcard(n), k as int)
                    == first_webhook(self.webhooks@, |n: Seq<char>| is_wildcard(n), 0),
            decreases self.webhooks.len() - k,
        {
            let name = self.webhooks[k].0.as_str().as_bytes();
            if name.len() == 1 && name[0] == 0x2a {
                assert(name@ =~= seq![0x2au8]);
                return Some(&self.webhooks[k].1);
            }
            assert(name@ != seq![0x2au8]) by {
                if name@ == seq![0x2au8] {
                    assert(name@.len() == 1 && name@[0] == 0x2a);
                }
            }
            k = k + 1;
        }
        None
    }
}

} // verus!
