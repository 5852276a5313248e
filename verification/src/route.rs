//! Data model: a monitored route, one request header, and the persisted
//! outcome of one probe.
use vstd::prelude::*;

verus! {

/// One HTTP request header attached to a route's checks.
pub struct Header {
    pub name: String,
    pub value: String,
}

impl Clone for Header {
    fn clone(&self) -> (r: Self)
        ensures
            r == *self,
    {
        let r = Header { name: self.name.clone(), value: self.value.clone() };
        proof {
            assert(r.name == self.name);
            assert(r.value == self.value);
        }
        r
    }
}

/// Mathematical image of a [`Route`]: every text field as a sequence of
/// characters, so contracts never depend on allocation identity.
pub ghost struct RouteV {
    pub id: Seq<char>,
    pub name: Seq<char>,
    pub url: Seq<char>,
    pub method: Seq<char>,
    pub headers: Seq<Header>,
    pub body: Option<Seq<char>>,
    pub expected_status: Option<i32>,
    pub time_threshold: Option<i32>,
    pub interval: i32,
    pub retries: Option<i32>,
    pub alert_email: Option<Seq<char>>,
    pub is_active: bool,
}

/// A monitored endpoint together with its check policy, as fetched from the
/// route source. Immutable for the life of this in-memory copy.
pub struct Route {
    pub id: String,
    pub name: String,
    pub url: String,
    pub method: String,
    /// String-valued request headers; entries of any other shape were
    /// already ignored when the snapshot was taken.
    pub headers: Vec<Header>,
    pub body: Option<String>,
    pub expected_status: Option<i32>,
    /// Latency budget in milliseconds for one whole probe, retries included.
    pub time_threshold: Option<i32>,
    /// Polling period in seconds; the scheduling key.
    pub interval: i32,
    /// Additional attempts after the first; `None` means none.
    pub retries: Option<i32>,
    pub alert_email: Option<String>,
    pub is_active: bool,
}

impl View for Route {
    type V = RouteV;

    open spec fn view(&self) -> RouteV {
        RouteV {
            id: self.id@,
            name: self.name@,
            url: self.url@,
            method: self.method@,
            headers: self.headers@,
            body: self.body.deep_view(),
            expected_status: self.expected_status,
            time_threshold: self.time_threshold,
            interval: self.interval,
            retries: self.retries,
            alert_email: self.alert_email.deep_view(),
            is_active: self.is_active,
        }
    }
}

impl Clone for Route {
    fn clone(&self) -> (r: Self)
        ensures
            r@ == self@,
    {
        let r = Route {
            id: self.id.clone(),
            name: self.name.clone(),
            url: self.url.clone(),
            method: self.method.clone(),
            headers: self.headers.clone(),
            body: self.body.clone(),
            expected_status: self.expected_status,
            time_threshold: self.time_threshold,
            interval: self.interval,
            retries: self.retries,
            alert_email: self.alert_email.clone(),
            is_active: self.is_active,
        };
        proof {
            assert forall|i: int| 0 <= i < self.headers@.len() implies r.headers@[i]
                == self.headers@[i] by {
                assert(cloned(self.headers@[i], r.headers@[i]));
            }
            assert(r.headers@ =~= self.headers@);
            assert(r.body == self.body);
            assert(r.alert_email == self.alert_email);
            assert(r@ =~= self@);
        }
        r
    }
}

/// The recorded outcome of one probe cycle: the last observed status code
/// (absent when every attempt failed in transport), the total elapsed time
/// in milliseconds, and the overall verdict.
pub struct RequestLog {
    pub id: String,
    pub status_code: Option<i32>,
    pub response_time: Option<i32>,
    pub is_success: bool,
    pub route_id: String,
}

} // verus!
