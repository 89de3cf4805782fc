//! An invoice service and a customer service behind a REST gateway: the
//! two stores, and the calls that the gateway's routes turn into.

use crate::gateway::Method;
use crate::service::names;
use crate::ids::{first_group, format_id, is_random_id, prefix_before, random_id};
use crate::text::same_text;
use std::collections::HashMap;
use vstd::prelude::*;
use vstd::std_specs::iter::IteratorSpec;
use vstd::string::StringExecFns;

verus! {

/// An amount of money. The services store amounts and hand them on, and
/// never compute with them: an amount is carried as the 64 bits of its
/// floating-point value.
#[derive(Clone, Copy, Debug, PartialEq, Eq, Structural)]
pub struct Amount {
    pub bits: u64,
}

/// An invoice.
#[derive(Debug)]
pub struct Invoice {
    pub id: u128,
    pub customer_id: String,
    pub amount: Amount,
    pub paid: bool,
    pub due_date: String,
}

/// What an invoice is.
pub struct InvoiceModel {
    pub id: u128,
    pub customer_id: Seq<char>,
    pub amount: Amount,
    pub paid: bool,
    pub due_date: Seq<char>,
}

impl View for Invoice {
    type V = InvoiceModel;

    open spec fn view(&self) -> InvoiceModel {
        InvoiceModel {
            id: self.id,
            customer_id: self.customer_id@,
            amount: self.amount,
            paid: self.paid,
            due_date: self.due_date@,
        }
    }
}

impl Clone for Invoice {
    fn clone(&self) -> (r: Invoice)
        ensures
            r@ == self@,
    {
        Invoice {
            id: self.id,
            customer_id: self.customer_id.clone(),
            amount: self.amount,
            paid: self.paid,
            due_date: self.due_date.clone(),
        }
    }
}

/// What a caller sends to have an invoice made.
#[derive(Debug)]
pub struct CreateInvoiceRequest {
    pub customer_id: String,
    pub amount: Amount,
    pub due_date: String,
}

/// What a caller sends to have an invoice changed: each field that is there
/// takes the place of the invoice's.
#[derive(Debug)]
pub struct UpdateInvoiceRequest {
    pub amount: Option<Amount>,
    pub paid: Option<bool>,
    pub due_date: Option<String>,
}

/// No invoice has the id that was asked for.
#[derive(Clone, Copy, Debug, PartialEq, Eq, Structural)]
pub struct InvoiceNotFound;

impl InvoiceNotFound {
    /// A message for a person to read.
    pub fn message(&self) -> (r: String)
        ensures
            r@ == "Invoice not found"@,
    {
        "Invoice not found".to_owned()
    }
}

/// An invoice with the fields of an update in the place of its own.
pub open spec fn updated(
    invoice: InvoiceModel,
    amount: Option<Amount>,
    paid: Option<bool>,
    due_date: Option<Seq<char>>,
) -> InvoiceModel {
    InvoiceModel {
        amount: match amount {
            Some(a) => a,
            None => invoice.amount,
        },
        paid: match paid {
            Some(p) => p,
            None => invoice.paid,
        },
        due_date: match due_date {
            Some(d) => d,
            None => invoice.due_date,
        },
        ..invoice
    }
}

/// What the invoices of a map are, each under its id.
pub open spec fn invoice_models(invoices: Map<u128, Invoice>) -> Map<u128, InvoiceModel> {
    invoices.map_values(|i: Invoice| i@)
}

/// The invoices, each under its id.
pub struct InvoiceService {
    invoices: HashMap<u128, Invoice>,
}

impl View for InvoiceService {
    type V = Map<u128, InvoiceModel>;

    closed spec fn view(&self) -> Map<u128, InvoiceModel> {
        invoice_models(self.invoices@)
    }
}

impl InvoiceService {
    #[verifier::type_invariant]
    spec fn inv(&self) -> bool {
        forall|id: u128|
            self.invoices@.contains_key(id) ==> (#[trigger] self.invoices@[id]).id == id
    }

    /// A service without invoices.
    pub fn new() -> (r: InvoiceService)
        ensures
            r@ == Map::<u128, InvoiceModel>::empty(),
    {
        let r = InvoiceService { invoices: HashMap::new() };
        assert(r@ =~= Map::<u128, InvoiceModel>::empty());
        r
    }

    /// How many invoices there are.
    pub fn len(&self) -> (n: usize)
        ensures
            n == self@.len(),
            self@.dom().finite(),
    {
        assert(self@.dom() =~= self.invoices@.dom());
        self.invoices.len()
    }

    /// All invoices, in no particular order: each invoice once.
    pub fn get_invoices(&self) -> (r: Vec<Invoice>)
        ensures
            self@.dom().finite(),
            r@.len() == self@.len(),
            forall|i: int|
                0 <= i < r@.len() ==> self@.contains_key((#[trigger] r@[i]).id) && self@[r@[i].id]
                    == r@[i]@,
            forall|i: int, j: int| 0 <= i < j < r@.len() ==> r@[i].id != r@[j].id,
            forall|id: u128|
                self@.contains_key(id) ==> exists|i: int| 0 <= i < r@.len() && r@[i].id == id,
    {
        proof {
            use_type_invariant(self);
            assert(self@.dom() =~= self.invoices@.dom());
        }
        let mut out: Vec<Invoice> = Vec::new();
        let keys = self.invoices.keys();
        let ghost ids = keys.remaining().unref();
        for id in it: keys
            invariant
                it.seq().unref() == ids,
                ids.to_set() == self.invoices@.dom(),
                ids.no_duplicates(),
                ids.len() == self.invoices@.dom().len(),
                self@.dom() == self.invoices@.dom(),
                self@ == invoice_models(self.invoices@),
                forall|k: u128|
                    self.invoices@.contains_key(k) ==> (#[trigger] self.invoices@[k]).id == k,
                out@.len() == it.index(),
                forall|i: int| 0 <= i < out@.len() ==> (#[trigger] out@[i]).id == ids[i],
                forall|i: int|
                    0 <= i < out@.len() ==> self@.contains_key((#[trigger] out@[i]).id)
                        && self@[out@[i].id] == out@[i]@,
        {
            assert(ids.to_set().contains(*id)) by {
                assert(ids[it.index()] == *id);
            }
            match self.invoices.get(id) {
                Some(invoice) => {
                    out.push(invoice.clone());
                },
                None => {},
            }
        }
        proof {
            assert forall|id: u128| self@.contains_key(id) implies exists|i: int|
                0 <= i < out@.len() && out@[i].id == id by {
                assert(ids.to_set().contains(id));
                let i = choose|i: int| 0 <= i < ids.len() && ids[i] == id;
                assert(out@[i].id == id);
            }
        }
        out
    }

    /// The invoice with this id.
    pub fn get_invoice(&self, id: u128) -> (r: Result<Invoice, InvoiceNotFound>)
        ensures
            match r {
                Ok(invoice) => self@.contains_key(id) && self@[id] == invoice@,
                Err(_) => !self@.contains_key(id),
            },
    {
        proof {
            assert(self@.dom() =~= self.invoices@.dom());
        }
        match self.invoices.get(&id) {
            Some(invoice) => Ok(invoice.clone()),
            None => Err(InvoiceNotFound),
        }
    }

    /// Puts an unpaid invoice with the id `id` and the fields of `request`
    /// into the store, in the place of the invoice that had that id, if one
    /// had, and returns the new invoice.
    pub fn insert_invoice(&mut self, id: u128, request: CreateInvoiceRequest) -> (r: Invoice)
        ensures
            r@ == (InvoiceModel {
                id,
                customer_id: request.customer_id@,
                amount: request.amount,
                paid: false,
                due_date: request.due_date@,
            }),
            final(self)@ == old(self)@.insert(id, r@),
    {
        proof {
            use_type_invariant(&*self);
        }
        let invoice = Invoice {
            id,
            customer_id: request.customer_id,
            amount: request.amount,
            paid: false,
            due_date: request.due_date,
        };
        let copy = invoice.clone();
        let ghost before = self.invoices@;
        let mut invoices: HashMap<u128, Invoice> = HashMap::new();
        core::mem::swap(&mut self.invoices, &mut invoices);
        invoices.insert(id, invoice);
        proof {
            assert(invoice_models(invoices@) =~= invoice_models(before).insert(id, copy@));
        }
        self.invoices = invoices;
        copy
    }

    /// Makes an unpaid invoice with the fields of `request` under a fresh
    /// random id, and returns it.
    pub fn create_invoice(&mut self, request: CreateInvoiceRequest) -> (r: Invoice)
        ensures
            is_random_id(r.id),
            r@ == (InvoiceModel {
                id: r.id,
                customer_id: request.customer_id@,
                amount: request.amount,
                paid: false,
                due_date: request.due_date@,
            }),
            final(self)@ == old(self)@.insert(r.id, r@),
    {
        let id = random_id();
        self.insert_invoice(id, request)
    }

    /// Changes the invoice with this id: each field of `request` that is
    /// there takes the place of the invoice's. Returns the invoice as it is
    /// then. Where there is no such invoice, nothing changes.
    pub fn update_invoice(&mut self, id: u128, request: UpdateInvoiceRequest) -> (r: Result<
        Invoice,
        InvoiceNotFound,
    >)
        ensures
            match r {
                Ok(invoice) => {
                    &&& old(self)@.contains_key(id)
                    &&& invoice@ == updated(
                        old(self)@[id],
                        request.amount,
                        request.paid,
                        crate::event_bus::text_of(request.due_date),
                    )
                    &&& final(self)@ == old(self)@.insert(id, invoice@)
                },
                Err(_) => !old(self)@.contains_key(id) && final(self)@ == old(self)@,
            },
    {
        proof {
            use_type_invariant(&*self);
            assert(self@.dom() =~= self.invoices@.dom());
        }
        let ghost before = self.invoices@;
        let current = match self.invoices.get(&id) {
            Some(invoice) => invoice.clone(),
            None => {
                return Err(InvoiceNotFound);
            },
        };
        let invoice = Invoice {
            id: current.id,
            customer_id: current.customer_id,
            amount: match request.amount {
                Some(a) => a,
                None => current.amount,
            },
            paid: match request.paid {
                Some(p) => p,
                None => current.paid,
            },
            due_date: match request.due_date {
                Some(d) => d,
                None => current.due_date,
            },
        };
        let copy = invoice.clone();
        let mut invoices: HashMap<u128, Invoice> = HashMap::new();
        core::mem::swap(&mut self.invoices, &mut invoices);
        invoices.insert(id, invoice);
        proof {
            assert(invoice_models(invoices@) =~= invoice_models(before).insert(id, copy@));
        }
        self.invoices = invoices;
        Ok(copy)
    }

    /// Takes the invoice with this id out of the store. Where there is no
    /// such invoice, nothing changes.
    pub fn delete_invoice(&mut self, id: u128) -> (r: Result<(), InvoiceNotFound>)
        ensures
            match r {
                Ok(()) => old(self)@.contains_key(id) && final(self)@ == old(self)@.remove(id),
                Err(_) => !old(self)@.contains_key(id) && final(self)@ == old(self)@,
            },
    {
        proof {
            use_type_invariant(&*self);
            assert(self@.dom() =~= self.invoices@.dom());
        }
        let ghost before = self.invoices@;
        let mut invoices: HashMap<u128, Invoice> = HashMap::new();
        core::mem::swap(&mut self.invoices, &mut invoices);
        let removed = invoices.remove(&id);
        proof {
            match removed {
                Some(_) => {
                    assert(invoice_models(invoices@) =~= invoice_models(before).remove(id));
                },
                None => {
                    assert(invoice_models(invoices@) =~= invoice_models(before));
                },
            }
        }
        self.invoices = invoices;
        match removed {
            Some(_) => Ok(()),
            None => Err(InvoiceNotFound),
        }
    }
}


/// A customer.
#[derive(Debug)]
pub struct Customer {
    pub id: String,
    pub name: String,
    pub email: String,
}

/// What a customer is.
pub struct CustomerModel {
    pub id: Seq<char>,
    pub name: Seq<char>,
    pub email: Seq<char>,
}

impl View for Customer {
    type V = CustomerModel;

    open spec fn view(&self) -> CustomerModel {
        CustomerModel { id: self.id@, name: self.name@, email: self.email@ }
    }
}

impl Clone for Customer {
    fn clone(&self) -> (r: Customer)
        ensures
            r@ == self@,
    {
        Customer { id: self.id.clone(), name: self.name.clone(), email: self.email.clone() }
    }
}

/// What a caller sends to have a customer made.
#[derive(Debug)]
pub struct CreateCustomerRequest {
    pub name: String,
    pub email: String,
}

/// No customer has the id that was asked for.
#[derive(Clone, Copy, Debug, PartialEq, Eq, Structural)]
pub struct CustomerNotFound;

impl CustomerNotFound {
    /// A message for a person to read.
    pub fn message(&self) -> (r: String)
        ensures
            r@ == "Customer not found"@,
    {
        "Customer not found".to_owned()
    }
}

/// The id of the customer that is made from the random id `raw`: `cust_`
/// and the first group of the id's hyphenated text.
pub open spec fn customer_id(raw: u128) -> Seq<char> {
    seq!['c', 'u', 's', 't', '_'] + first_group(raw)
}

/// The position of the customer with the id `id`, or -1.
pub open spec fn customer_index(customers: Seq<CustomerModel>, id: Seq<char>) -> int
    decreases customers.len(),
{
    if customers.len() == 0 {
        -1
    } else if customers.first().id == id {
        0
    } else {
        let rest = customer_index(customers.drop_first(), id);
        if rest < 0 {
            -1
        } else {
            rest + 1
        }
    }
}

/// No two customers share an id.
pub open spec fn distinct_customers(customers: Seq<CustomerModel>) -> bool {
    forall|i: int, j: int|
        0 <= i < j < customers.len() ==> (#[trigger] customers[i]).id != (
        #[trigger] customers[j]).id
}

/// The customers with `customer` among them: in the place of the customer
/// that had its id, or behind the last where none had.
pub open spec fn put_customer(customers: Seq<CustomerModel>, customer: CustomerModel) -> Seq<
    CustomerModel,
> {
    if customer_index(customers, customer.id) >= 0 {
        customers.update(customer_index(customers, customer.id), customer)
    } else {
        customers.push(customer)
    }
}

/// The first customer of an id is where `customer_index` says.
pub proof fn lemma_customer_index(customers: Seq<CustomerModel>, id: Seq<char>)
    ensures
        -1 <= customer_index(customers, id) < customers.len(),
        customer_index(customers, id) >= 0 ==> customers[customer_index(customers, id)].id == id,
        forall|i: int|
            0 <= i < customers.len() && (customer_index(customers, id) < 0 || i
                < customer_index(customers, id)) ==> (#[trigger] customers[i]).id != id,
    decreases customers.len(),
{
    if customers.len() > 0 && customers.first().id != id {
        let rest = customers.drop_first();
        lemma_customer_index(rest, id);
        assert forall|i: int|
            0 <= i < customers.len() && (customer_index(customers, id) < 0 || i
                < customer_index(customers, id)) implies (#[trigger] customers[i]).id != id by {
            if i > 0 {
                assert(customers[i] == rest[i - 1]);
            }
        }
    }
}

/// The customers that a vector holds.
pub open spec fn customer_models(v: Seq<Customer>) -> Seq<CustomerModel> {
    Seq::new(v.len(), |i: int| v[i]@)
}

/// The customers, in the order in which they were made, each under an id
/// of its own.
pub struct CustomerService {
    customers: Vec<Customer>,
}

impl View for CustomerService {
    type V = Seq<CustomerModel>;

    closed spec fn view(&self) -> Seq<CustomerModel> {
        customer_models(self.customers@)
    }
}

impl CustomerService {
    #[verifier::type_invariant]
    spec fn inv(&self) -> bool {
        distinct_customers(self@)
    }

    /// A service without customers.
    pub fn new() -> (r: CustomerService)
        ensures
            r@ == Seq::<CustomerModel>::empty(),
    {
        let r = CustomerService { customers: Vec::new() };
        assert(r@ =~= Seq::<CustomerModel>::empty());
        r
    }

    /// The position of the customer with the id `id`.
    fn find(&self, id: &str) -> (r: Option<usize>)
        ensures
            distinct_customers(self@),
            match r {
                Some(i) => i < self@.len() && customer_index(self@, id@) == i,
                None => customer_index(self@, id@) == -1,
            },
    {
        proof {
            use_type_invariant(self);
            lemma_customer_index(self@, id@);
        }
        let mut i: usize = 0;
        while i < self.customers.len()
            invariant
                i <= self.customers.len(),
                distinct_customers(self@),
                forall|j: int| 0 <= j < i ==> (#[trigger] self@[j]).id != id@,
            decreases self.customers.len() - i,
        {
            if same_text(self.customers[i].id.as_str(), id) {
                proof {
                    lemma_customer_index(self@, id@);
                    assert(self@[i as int].id == id@);
                    let r = customer_index(self@, id@);
                    if r >= 0 && r < i {
                        assert(self@[r].id != id@);
                    }
                }
                return Some(i);
            }
            i += 1;
        }
        proof {
            lemma_customer_index(self@, id@);
        }
        None
    }

    /// All customers, in the order in which they were made.
    pub fn get_customers(&self) -> (r: Vec<Customer>)
        ensures
            customer_models(r@) == self@,
            distinct_customers(self@),
    {
        proof {
            use_type_invariant(self);
        }
        let mut out: Vec<Customer> = Vec::new();
        let mut i: usize = 0;
        while i < self.customers.len()
            invariant
                i <= self.customers.len(),
                out@.len() == i,
                forall|j: int| 0 <= j < i ==> (#[trigger] out@[j])@ == self@[j],
            decreases self.customers.len() - i,
        {
            out.push(self.customers[i].clone());
            i += 1;
        }
        assert(customer_models(out@) =~= self@);
        out
    }

    /// The customer with this id.
    pub fn get_customer(&self, id: &str) -> (r: Result<Customer, CustomerNotFound>)
        ensures
            match r {
                Ok(customer) => customer_index(self@, id@) >= 0 && customer@
                    == self@[customer_index(self@, id@)],
                Err(_) => customer_index(self@, id@) == -1,
            },
    {
        match self.find(id) {
            Some(i) => Ok(self.customers[i].clone()),
            None => Err(CustomerNotFound),
        }
    }

    /// Puts a customer with the name and address of `request` into the
    /// store, under the id that is made from the random id `raw`, and
    /// returns the new customer. It takes the place of the customer that
    /// had that id, if one had.
    pub fn insert_customer(&mut self, raw: u128, request: CreateCustomerRequest) -> (r: Customer)
        ensures
            r@ == (CustomerModel {
                id: customer_id(raw),
                name: request.name@,
                email: request.email@,
            }),
            final(self)@ == put_customer(old(self)@, r@),
            distinct_customers(final(self)@),
    {
        let text = format_id(raw);
        let group = prefix_before(text.as_str(), '-');
        let mut id = "cust_".to_owned();
        id.append(group.as_str());
        proof {
            crate::ids::lemma_first_group(raw);
            reveal_strlit("cust_");
            assert("cust_"@ =~= seq!['c', 'u', 's', 't', '_']);
        }
        let customer = Customer { id, name: request.name, email: request.email };
        let copy = customer.clone();
        let at = self.find(customer.id.as_str());
        let ghost before = self@;
        proof {
            lemma_customer_index(before, customer.id@);
        }
        let mut customers: Vec<Customer> = Vec::new();
        core::mem::swap(&mut self.customers, &mut customers);
        match at {
            Some(i) => {
                customers[i] = customer;
            },
            None => {
                customers.push(customer);
            },
        }
        proof {
            assert(customer_models(customers@) =~= put_customer(before, copy@));
        }
        self.customers = customers;
        copy
    }

    /// Makes a customer with the name and address of `request` under an id
    /// that is made from a fresh random id, and returns it.
    pub fn create_customer(&mut self, request: CreateCustomerRequest) -> (r: Customer)
        ensures
            exists|raw: u128|
                is_random_id(raw) && r@.id == #[trigger] customer_id(raw),
            r@.name == request.name@,
            r@.email == request.email@,
            final(self)@ == put_customer(old(self)@, r@),
    {
        let raw = random_id();
        self.insert_customer(raw, request)
    }
}

/// One route of the REST gateway: a method and a path below the prefix,
/// the service and operation that serve it, and the names of the parameters
/// that the operation is called with.
#[derive(Debug)]
pub struct RestRoute {
    pub method: Method,
    pub path: String,
    pub service: String,
    pub operation: String,
    pub params: Vec<String>,
}

/// What a route of the REST gateway is.
pub struct RestRouteEntry {
    pub method: Method,
    pub path: Seq<char>,
    pub service: Seq<char>,
    pub operation: Seq<char>,
    pub params: Seq<Seq<char>>,
}

impl View for RestRoute {
    type V = RestRouteEntry;

    open spec fn view(&self) -> RestRouteEntry {
        RestRouteEntry {
            method: self.method,
            path: self.path@,
            service: self.service@,
            operation: self.operation@,
            params: crate::service::texts(self.params@),
        }
    }
}

/// The routes that a vector holds.
pub open spec fn rest_entries(v: Seq<RestRoute>) -> Seq<RestRouteEntry> {
    Seq::new(v.len(), |i: int| v[i]@)
}

/// A route of the REST gateway.
fn rest_route(
    method: Method,
    path: &str,
    service: &str,
    operation: &str,
    params: Vec<String>,
) -> (r: RestRoute)
    ensures
        r@ == (RestRouteEntry {
            method,
            path: path@,
            service: service@,
            operation: operation@,
            params: crate::service::texts(params@),
        }),
{
    RestRoute {
        method,
        path: path.to_owned(),
        service: service.to_owned(),
        operation: operation.to_owned(),
        params,
    }
}

/// The routes of the REST gateway.
pub open spec fn rest_table() -> Seq<RestRouteEntry> {
    seq![
        RestRouteEntry {
            method: Method::Get,
            path: "/invoices"@,
            service: "invoice_service"@,
            operation: "get_invoices"@,
            params: Seq::empty(),
        },
        RestRouteEntry {
            method: Method::Get,
            path: "/invoices/:id"@,
            service: "invoice_service"@,
            operation: "get_invoice"@,
            params: seq!["id"@],
        },
        RestRouteEntry {
            method: Method::Post,
            path: "/invoices"@,
            service: "invoice_service"@,
            operation: "create_invoice"@,
            params: seq!["req"@],
        },
        RestRouteEntry {
            method: Method::Put,
            path: "/invoices/:id"@,
            service: "invoice_service"@,
            operation: "update_invoice"@,
            params: seq!["id"@, "req"@],
        },
        RestRouteEntry {
            method: Method::Delete,
            path: "/invoices/:id"@,
            service: "invoice_service"@,
            operation: "delete_invoice"@,
            params: seq!["id"@],
        },
        RestRouteEntry {
            method: Method::Get,
            path: "/customers"@,
            service: "customer_service"@,
            operation: "get_customers"@,
            params: Seq::empty(),
        },
        RestRouteEntry {
            method: Method::Get,
            path: "/customers/:id"@,
            service: "customer_service"@,
            operation: "get_customer"@,
            params: seq!["id"@],
        },
        RestRouteEntry {
            method: Method::Post,
            path: "/customers"@,
            service: "customer_service"@,
            operation: "create_customer"@,
            params: seq!["req"@],
        },
    ]
}

/// The REST gateway of the invoice service and the customer service.
#[derive(Clone, Copy, Debug, PartialEq, Eq, Structural)]
pub struct ApiGateway {}

impl ApiGateway {
    /// The gateway.
    pub fn new() -> (r: ApiGateway)
        ensures
            r == (ApiGateway {  }),
    {
        ApiGateway {  }
    }

    /// The address that the gateway listens on.
    pub fn host(&self) -> (r: String)
        ensures
            r@ == "0.0.0.0"@,
    {
        "0.0.0.0".to_owned()
    }

    /// The port that the gateway listens on.
    pub fn port(&self) -> (r: u16)
        ensures
            r == 8080,
    {
        8080
    }

    /// What every path of the gateway starts with.
    pub fn prefix(&self) -> (r: String)
        ensures
            r@ == "/api/v1"@,
    {
        "/api/v1".to_owned()
    }

    /// The routes of the gateway: first those of the invoice service, then
    /// those of the customer service.
    pub fn routes(&self) -> (r: Vec<RestRoute>)
        ensures
            rest_entries(r@) == rest_table(),
    {
        let mut r: Vec<RestRoute> = Vec::new();
        r.push(rest_route(Method::Get, "/invoices", "invoice_service", "get_invoices", names(&[])));
        r.push(
            rest_route(
                Method::Get,
                "/invoices/:id",
                "invoice_service",
                "get_invoice",
                names(&["id"]),
            ),
        );
        r.push(
            rest_route(
                Method::Post,
                "/invoices",
                "invoice_service",
                "create_invoice",
                names(&["req"]),
            ),
        );
        r.push(
            rest_route(
                Method::Put,
                "/invoices/:id",
                "invoice_service",
                "update_invoice",
                names(&["id", "req"]),
            ),
        );
        r.push(
            rest_route(
                Method::Delete,
                "/invoices/:id",
                "invoice_service",
                "delete_invoice",
                names(&["id"]),
            ),
        );
        r.push(
            rest_route(Method::Get, "/customers", "customer_service", "get_customers", names(&[])),
        );
        r.push(
            rest_route(
                Method::Get,
                "/customers/:id",
                "customer_service",
                "get_customer",
                names(&["id"]),
            ),
        );
        r.push(
            rest_route(
                Method::Post,
                "/customers",
                "customer_service",
                "create_customer",
                names(&["req"]),
            ),
        );
        proof {
            let made = rest_entries(r@);
            let table = rest_table();
            assert(made.len() == 8 && table.len() == 8);
            assert forall|i: int| 0 <= i < 8 implies made[i] == table[i] by {
                assert(made[i].params =~= table[i].params);
            }
            assert(made =~= table);
        }
        r
    }
}

} // verus!
