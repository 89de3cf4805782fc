use node_core::gateway::Method;
use node_core::rest_api::{
    Amount, ApiGateway, CreateCustomerRequest, CreateInvoiceRequest, CustomerNotFound,
    CustomerService, InvoiceNotFound, InvoiceService, UpdateInvoiceRequest,
};

fn invoice(customer: &str, amount: f64, due: &str) -> CreateInvoiceRequest {
    CreateInvoiceRequest {
        customer_id: customer.to_string(),
        amount: Amount { bits: amount.to_bits() },
        due_date: due.to_string(),
    }
}

fn customer(name: &str, email: &str) -> CreateCustomerRequest {
    CreateCustomerRequest { name: name.to_string(), email: email.to_string() }
}

#[test]
fn created_invoice_is_unpaid() {
    let mut service = InvoiceService::new();
    let made = service.create_invoice(invoice("cust_1", 12.5, "2024-01-31"));
    assert_eq!(made.customer_id, "cust_1");
    assert_eq!(f64::from_bits(made.amount.bits), 12.5);
    assert!(!made.paid);
    assert_eq!(made.due_date, "2024-01-31");
    assert_eq!((made.id >> 76) & 0xf, 4);
    let fetched = service.get_invoice(made.id).expect("the invoice");
    assert_eq!(fetched.customer_id, "cust_1");
    assert_eq!(fetched.amount, made.amount);
}

#[test]
fn unknown_invoice_is_not_found() {
    let mut service = InvoiceService::new();
    assert_eq!(service.get_invoice(1).err(), Some(InvoiceNotFound));
    assert_eq!(
        service
            .update_invoice(1, UpdateInvoiceRequest { amount: None, paid: None, due_date: None })
            .err(),
        Some(InvoiceNotFound)
    );
    assert_eq!(service.delete_invoice(1), Err(InvoiceNotFound));
    assert_eq!(InvoiceNotFound.message(), "Invoice not found");
}

#[test]
fn update_replaces_the_fields_that_are_there() {
    let mut service = InvoiceService::new();
    service.insert_invoice(1, invoice("c", 10.0, "d1"));
    let updated = service
        .update_invoice(
            1,
            UpdateInvoiceRequest { amount: None, paid: Some(true), due_date: None },
        )
        .unwrap();
    assert!(updated.paid);
    assert_eq!(f64::from_bits(updated.amount.bits), 10.0);
    assert_eq!(updated.due_date, "d1");
    let updated = service
        .update_invoice(
            1,
            UpdateInvoiceRequest {
                amount: Some(Amount { bits: 20.5f64.to_bits() }),
                paid: None,
                due_date: Some("d2".to_string()),
            },
        )
        .unwrap();
    assert!(updated.paid);
    assert_eq!(f64::from_bits(updated.amount.bits), 20.5);
    assert_eq!(updated.due_date, "d2");
    assert_eq!(updated.customer_id, "c");
    assert_eq!(updated.id, 1);
    let stored = service.get_invoice(1).unwrap();
    assert_eq!(stored.due_date, "d2");
    assert!(stored.paid);
}

#[test]
fn update_without_fields_changes_nothing() {
    let mut service = InvoiceService::new();
    service.insert_invoice(1, invoice("c", 10.0, "d1"));
    let same = service
        .update_invoice(1, UpdateInvoiceRequest { amount: None, paid: None, due_date: None })
        .unwrap();
    assert_eq!(same.due_date, "d1");
    assert!(!same.paid);
    assert_eq!(f64::from_bits(same.amount.bits), 10.0);
}

#[test]
fn deleted_invoice_is_gone() {
    let mut service = InvoiceService::new();
    service.insert_invoice(1, invoice("c", 10.0, "d1"));
    service.insert_invoice(2, invoice("c", 11.0, "d2"));
    assert_eq!(service.delete_invoice(1), Ok(()));
    assert_eq!(service.delete_invoice(1), Err(InvoiceNotFound));
    assert!(service.get_invoice(1).is_err());
    let left = service.get_invoices();
    assert_eq!(left.len(), 1);
    assert_eq!(left[0].id, 2);
}

#[test]
fn get_invoices_lists_each_invoice_once() {
    let mut service = InvoiceService::new();
    assert!(service.get_invoices().is_empty());
    for id in [5u128, 3, 4] {
        service.insert_invoice(id, invoice("c", 1.0, "d"));
    }
    let mut ids: Vec<u128> = service.get_invoices().iter().map(|i| i.id).collect();
    ids.sort();
    assert_eq!(ids, vec![3, 4, 5]);
}

#[test]
fn customer_id_is_made_from_the_first_group_of_a_random_id() {
    let mut service = CustomerService::new();
    let made = service.insert_customer(0xa1a2a3a4b1b2c1c2d1d2d3d4d5d6d7d8, customer("n", "e"));
    assert_eq!(made.id, "cust_a1a2a3a4");
    assert_eq!(made.name, "n");
    assert_eq!(made.email, "e");
    let made = service.insert_customer(1, customer("n", "e"));
    assert_eq!(made.id, "cust_00000000");
}

#[test]
fn created_customer_can_be_fetched_by_its_id() {
    let mut service = CustomerService::new();
    let made = service.create_customer(customer("alice", "a@x"));
    assert_eq!(made.id.len(), 13);
    assert!(made.id.starts_with("cust_"));
    assert!(made.id[5..].chars().all(|c| c.is_ascii_hexdigit() && !c.is_ascii_uppercase()));
    let fetched = service.get_customer(&made.id).expect("the customer");
    assert_eq!(fetched.name, "alice");
    assert_eq!(fetched.email, "a@x");
}

#[test]
fn unknown_customer_is_not_found() {
    let mut service = CustomerService::new();
    service.insert_customer(1, customer("n", "e"));
    assert_eq!(service.get_customer("cust_00000001").err(), Some(CustomerNotFound));
    assert_eq!(service.get_customer("").err(), Some(CustomerNotFound));
    assert_eq!(CustomerNotFound.message(), "Customer not found");
}

#[test]
fn customers_are_listed_in_the_order_in_which_they_were_made() {
    let mut service = CustomerService::new();
    service.insert_customer(3u128 << 96, customer("c", "e"));
    service.insert_customer(1u128 << 96, customer("a", "e"));
    service.insert_customer(2u128 << 96, customer("b", "e"));
    let names: Vec<String> = service.get_customers().into_iter().map(|c| c.name).collect();
    assert_eq!(names, vec!["c", "a", "b"]);
}

#[test]
fn customer_under_a_taken_id_takes_the_place_of_the_other() {
    let mut service = CustomerService::new();
    service.insert_customer(1u128 << 96, customer("a", "e"));
    service.insert_customer(2u128 << 96, customer("b", "e"));
    // The same first group, another id.
    service.insert_customer((1u128 << 96) + 5, customer("c", "e"));
    let names: Vec<String> = service.get_customers().into_iter().map(|c| c.name).collect();
    assert_eq!(names, vec!["c", "b"]);
    assert_eq!(service.get_customer("cust_00000001").unwrap().name, "c");
}

#[test]
fn rest_gateway_maps_eight_routes() {
    let gateway = ApiGateway::new();
    assert_eq!(gateway.host(), "0.0.0.0");
    assert_eq!(gateway.port(), 8080);
    assert_eq!(gateway.prefix(), "/api/v1");
    let routes = gateway.routes();
    let rows: Vec<(Method, &str, &str, &str, Vec<&str>)> = routes
        .iter()
        .map(|r| {
            (
                r.method,
                r.path.as_str(),
                r.service.as_str(),
                r.operation.as_str(),
                r.params.iter().map(|p| p.as_str()).collect(),
            )
        })
        .collect();
    assert_eq!(
        rows,
        vec![
            (Method::Get, "/invoices", "invoice_service", "get_invoices", vec![]),
            (Method::Get, "/invoices/:id", "invoice_service", "get_invoice", vec!["id"]),
            (Method::Post, "/invoices", "invoice_service", "create_invoice", vec!["req"]),
            (Method::Put, "/invoices/:id", "invoice_service", "update_invoice", vec!["id", "req"]),
            (Method::Delete, "/invoices/:id", "invoice_service", "delete_invoice", vec!["id"]),
            (Method::Get, "/customers", "customer_service", "get_customers", vec![]),
            (Method::Get, "/customers/:id", "customer_service", "get_customer", vec!["id"]),
            (Method::Post, "/customers", "customer_service", "create_customer", vec!["req"]),
        ]
    );
}
