//! Builder and structs representing the login request and response.
use vstd::prelude::*;
use vstd::string::StringExecFns;

verus! {

/// A login request: the user's email address, password and device id.
#[derive(Clone, Debug)]
pub struct Request {
    /// The user's email address.
    pub(crate) email_address: String,
    /// The user's password.
    pub(crate) password: String,
    /// A caller-chosen id of the installation the request comes from.
    pub(crate) device_id: String,
}

/// The three fields of a request, as character sequences.
pub struct RequestFields {
    pub email_address: Seq<char>,
    pub password: Seq<char>,
    pub device_id: Seq<char>,
}

impl View for Request {
    type V = RequestFields;

    open(crate) spec fn view(&self) -> RequestFields {
        RequestFields {
            email_address: self.email_address@,
            password: self.password@,
            device_id: self.device_id@,
        }
    }
}

impl Request {
    /// The email address.
    pub fn email_address(&self) -> (r: &str)
        ensures
            r@ == self@.email_address,
    {
        self.email_address.as_str()
    }

    /// The password.
    pub fn password(&self) -> (r: &str)
        ensures
            r@ == self@.password,
    {
        self.password.as_str()
    }

    /// The device id.
    pub fn device_id(&self) -> (r: &str)
        ensures
            r@ == self@.device_id,
    {
        self.device_id.as_str()
    }
}

impl Default for Request {
    fn default() -> (r: Self)
        ensures
            r@.email_address == Seq::<char>::empty(),
            r@.password == Seq::<char>::empty(),
            r@.device_id == Seq::<char>::empty(),
    {
        Request { email_address: String::new(), password: String::new(), device_id: String::new() }
    }
}

/// A builder for a login request. Unset fields are empty.
#[derive(Clone, Debug)]
pub struct RequestBuilder {
    pub(crate) email_address: String,
    pub(crate) password: String,
    pub(crate) device_id: String,
}

impl View for RequestBuilder {
    type V = RequestFields;

    open(crate) spec fn view(&self) -> RequestFields {
        RequestFields {
            email_address: self.email_address@,
            password: self.password@,
            device_id: self.device_id@,
        }
    }
}

impl RequestBuilder {
    /// Creates a builder whose three fields are empty.
    pub fn new() -> (r: Self)
        ensures
            r@.email_address == Seq::<char>::empty(),
            r@.password == Seq::<char>::empty(),
            r@.device_id == Seq::<char>::empty(),
    {
        RequestBuilder { email_address: String::new(), password: String::new(), device_id: String::new() }
    }

    /// Sets the email address; the other fields are kept. The
    /// builder itself is returned, so that calls can be chained.
    pub fn with_email_address(&mut self, email_address: &str) -> (r: &mut Self)
        ensures
            r@ == (RequestFields { email_address: email_address@, ..old(self)@ }),
            *final(self) == *final(r),
    {
        self.email_address = String::from_str(email_address);
        self
    }

    /// Sets the password; the other fields are kept. Chains as above.
    pub fn with_password(&mut self, password: &str) -> (r: &mut Self)
        ensures
            r@ == (RequestFields { password: password@, ..old(self)@ }),
            *final(self) == *final(r),
    {
        self.password = String::from_str(password);
        self
    }

    /// Sets the device id; the other fields are kept. Chains as above.
    pub fn with_device_id(&mut self, device_id: &str) -> (r: &mut Self)
        ensures
            r@ == (RequestFields { device_id: device_id@, ..old(self)@ }),
            *final(self) == *final(r),
    {
        self.device_id = String::from_str(device_id);
        self
    }

    /// Builds a request from the builder's current fields; the builder is
    /// left as it is.
    pub fn build(&self) -> (r: Request)
        ensures
            r@ == self@,
    {
        Request {
            email_address: self.email_address.clone(),
            password: self.password.clone(),
            device_id: self.device_id.clone(),
        }
    }
}

/// The field updates that `with_email_address`, `with_password` and
/// `with_device_id` state in their contracts, applied one after the other to
/// any builder fields `f`, leave exactly the three values set, whatever `f`
/// held before.
pub proof fn lemma_setters_fill_all(f: RequestFields, e: Seq<char>, p: Seq<char>, d: Seq<char>)
    ensures
        (RequestFields {
            device_id: d,
            ..(RequestFields { password: p, ..(RequestFields { email_address: e, ..f }) })
        }) == (RequestFields { email_address: e, password: p, device_id: d }),
{
}

impl Default for RequestBuilder {
    fn default() -> (r: Self)
        ensures
            r@.email_address == Seq::<char>::empty(),
            r@.password == Seq::<char>::empty(),
            r@.device_id == Seq::<char>::empty(),
    {
        RequestBuilder::new()
    }
}

/// The response to a login call: the bearer token that authenticates later calls.
#[derive(Clone, Debug)]
pub struct Response {
    /// The bearer token.
    pub(crate) token: String,
}

impl View for Response {
    type V = Seq<char>;

    open(crate) spec fn view(&self) -> Seq<char> {
        self.token@
    }
}

impl Response {
    /// A response that holds the given token.
    pub fn new(token: &str) -> (r: Response)
        ensures
            r@ == token@,
    {
        Response { token: String::from_str(token) }
    }

    /// The token, borrowed.
    pub fn token(&self) -> (r: &str)
        ensures
            r@ == self@,
    {
        self.token.as_str()
    }

    /// Gives up the response and hands its token to the caller.
    pub fn access_token(self) -> (r: String)
        ensures
            r@ == self@,
    {
        self.token
    }
}

impl Default for Response {
    fn default() -> (r: Self)
        ensures
            r@ == Seq::<char>::empty(),
    {
        Response { token: String::new() }
    }
}

} // verus!
