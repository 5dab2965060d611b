use ledger::amount::Amount;
use ledger::date::Date;
use ledger::repo::mem_repo::create_repos;
use ledger::repo::mem_repo::transaction_repo::{compute_monthly_totals, compute_sum, tag_changes, MemTransactionRepo};
use ledger::repo::transaction_repo::{
    Filter, MonthlyTotal, NewTransaction, PageOptions, Transaction, TransactionRepoError,
};
use ledger::repo::user_repo::{User, UserRepo};

fn date(y: i32, m: u32, d: u32) -> Date {
    Date::from_ymd_opt(y, m, d).unwrap()
}

fn new_transaction(
    category: &str,
    transactee: Option<&str>,
    day: Date,
    amount: i64,
    tags: &[&str],
) -> NewTransaction {
    NewTransaction::new(
        category.to_string(),
        transactee.map(|t| t.to_string()),
        Some("a note".to_string()),
        day,
        Amount::from_i64(amount),
        tags.iter().map(|t| t.to_string()).collect(),
    )
}

fn generate_new_transaction() -> NewTransaction {
    new_transaction("Misc", Some("Carol"), date(2022, 3, 14), 42, &["tag1"])
}

fn repo_with_user(id: &str) -> MemTransactionRepo {
    let (mut users, transactions, _templates) = create_repos();
    users
        .create_user(User::new(id.to_string(), "not a real hash".to_string()))
        .unwrap();
    transactions
}

fn insert_transactions(
    repo: &mut MemTransactionRepo,
    user: &str,
    new_transactions: Vec<NewTransaction>,
) -> Vec<Transaction> {
    new_transactions
        .into_iter()
        .map(|t| repo.create_new_transaction(user, t).unwrap())
        .collect()
}

fn is_sorted_newest_first(transactions: &[Transaction]) -> bool {
    transactions.windows(2).all(|w| w[0] >= w[1])
}

#[test]
fn test_create_and_get_transactions() {
    let mut repo = repo_with_user("alice");
    let new_transaction = generate_new_transaction();
    let transaction_id = repo
        .create_new_transaction("alice", new_transaction.clone())
        .unwrap()
        .id;

    let stored_transaction = repo.get_transaction("alice", transaction_id).unwrap();
    assert_eq!(stored_transaction.category, new_transaction.category);
    assert_eq!(stored_transaction.transactee, new_transaction.transactee);
    assert_eq!(stored_transaction.note, new_transaction.note);
    assert_eq!(stored_transaction.date, new_transaction.date);
    assert_eq!(stored_transaction.amount, new_transaction.amount);
    assert_eq!(stored_transaction.tags, new_transaction.tags);
}

#[test]
fn test_get_invalid_transactions() {
    let repo = repo_with_user("alice");
    let get_result = repo.get_transaction("alice", 1234);
    assert!(matches!(
        get_result,
        Err(TransactionRepoError::TransactionNotFound(1234))
    ));
}

#[test]
fn test_transaction_repos_test_get_invalid_user() {
    let mut repo = repo_with_user("user1");
    let transaction_id = repo
        .create_new_transaction("user1", generate_new_transaction())
        .unwrap()
        .id;

    let result = repo.get_transaction("user2", transaction_id);
    assert!(matches!(
        result,
        Err(TransactionRepoError::TransactionNotFound(_))
    ));
}

#[test]
fn test_delete_transaction() {
    let mut repo = repo_with_user("alice");
    let transaction_id = repo
        .create_new_transaction("alice", generate_new_transaction())
        .unwrap()
        .id;

    let delete_result = repo.delete_transaction("alice", transaction_id);
    assert!(delete_result.is_ok());

    let result = repo.get_transaction("alice", transaction_id);
    assert!(matches!(
        result,
        Err(TransactionRepoError::TransactionNotFound(_))
    ));
}

#[test]
fn test_delete_invalid_transaction() {
    let mut repo = repo_with_user("alice");
    let delete_result = repo.delete_transaction("alice", 1234);
    assert!(matches!(
        delete_result,
        Err(TransactionRepoError::TransactionNotFound(_))
    ));
}

#[test]
fn test_transaction_repos_test_get_all_transactions() {
    let mut repo = repo_with_user("alice");
    let new_transactions = vec![
        new_transaction("Misc", Some("Alice"), date(2021, 10, 11), 10, &[]),
        new_transaction("Loan", Some("Bob"), date(1900, 10, 11), -15, &["loan"]),
    ];
    let inserted = insert_transactions(&mut repo, "alice", new_transactions);

    let transactions = repo
        .get_all_transactions("alice", Filter::none(), None)
        .unwrap();
    assert_eq!(transactions.len(), inserted.len());
    for t in &inserted {
        assert!(transactions.contains(t));
    }
}

#[test]
fn test_get_all_transactions_empty() {
    let repo = repo_with_user("alice");
    let transactions = repo
        .get_all_transactions("alice", Filter::none(), None)
        .unwrap();
    assert!(transactions.is_empty());
}

#[test]
fn test_transaction_repos_test_transactions_sorted() {
    let mut repo = repo_with_user("alice");
    let new_transactions = vec![
        new_transaction("Misc", Some("Alice"), date(2020, 5, 1), 1, &[]),
        new_transaction("Misc", Some("Alice"), date(1999, 1, 31), 2, &[]),
        new_transaction("Misc", Some("Alice"), date(2021, 7, 9), 3, &[]),
        new_transaction("Misc", Some("Alice"), date(2022, 12, 31), 4, &[]),
        new_transaction("Misc", Some("Alice"), date(2022, 12, 31), 5, &[]),
    ];
    insert_transactions(&mut repo, "alice", new_transactions);

    let transactions = repo
        .get_all_transactions("alice", Filter::none(), None)
        .unwrap();
    assert!(is_sorted_newest_first(&transactions), "transactions not sorted");
    assert_eq!(transactions[0].amount, Amount::from_i64(5));
    assert_eq!(transactions[1].amount, Amount::from_i64(4));
}

#[test]
fn test_transaction_repos_test_get_transactions_filter_category() {
    let mut repo = repo_with_user("alice");
    let new_transactions = vec![
        new_transaction("Loan", None, date(2021, 1, 1), 1, &[]),
        new_transaction("Misc", None, date(2021, 1, 2), 2, &[]),
    ];
    insert_transactions(&mut repo, "alice", new_transactions);

    let transactions = repo
        .get_all_transactions(
            "alice",
            Filter::new(None, None, Some("Loan".to_owned()), None),
            None,
        )
        .unwrap();
    assert!(transactions.iter().all(|t| t.category == "Loan"));
    assert_eq!(transactions.len(), 1);
}

#[test]
fn test_transaction_repos_test_get_transactions_filter_transactee() {
    let mut repo = repo_with_user("alice");
    let new_transactions = vec![
        new_transaction("Misc", Some("Alice"), date(2021, 1, 1), 1, &[]),
        new_transaction("Misc", Some("Bob"), date(2021, 1, 2), 2, &[]),
    ];
    insert_transactions(&mut repo, "alice", new_transactions);

    let transactions = repo
        .get_all_transactions(
            "alice",
            Filter::new(None, None, None, Some("Alice".to_owned())),
            None,
        )
        .unwrap();
    assert!(transactions
        .iter()
        .all(|t| t.transactee == Some("Alice".to_owned())));
    assert_eq!(transactions.len(), 1);
}

#[test]
fn test_transaction_repos_test_get_transactions_filter_from() {
    let mut repo = repo_with_user("alice");
    let new_transactions = vec![
        new_transaction("Misc", None, date(2021, 10, 11), 1, &[]),
        new_transaction("Misc", None, date(1900, 10, 11), 2, &[]),
    ];
    insert_transactions(&mut repo, "alice", new_transactions);

    let from = date(2021, 1, 1);
    let transactions = repo
        .get_all_transactions("alice", Filter::new(Some(from), None, None, None), None)
        .unwrap();
    assert!(transactions.iter().all(|t| from.is_before(&t.date)));
    assert_eq!(transactions.len(), 1);
}

#[test]
fn test_transaction_repos_test_get_transactions_filter_until() {
    let mut repo = repo_with_user("alice");
    let new_transactions = vec![
        new_transaction("Misc", None, date(2021, 10, 11), 1, &[]),
        new_transaction("Misc", None, date(1900, 10, 11), 2, &[]),
    ];
    insert_transactions(&mut repo, "alice", new_transactions);

    let until = date(2021, 1, 1);
    let transactions = repo
        .get_all_transactions("alice", Filter::new(None, Some(until), None, None), None)
        .unwrap();
    assert!(transactions.iter().all(|t| t.date.is_before(&until)));
    assert_eq!(transactions.len(), 1);
}

#[test]
fn test_transactions_pagination() {
    let mut repo = repo_with_user("alice");
    let new_transactions = vec![
        new_transaction("Misc", None, date(2022, 8, 2), 1, &[]),
        new_transaction("Misc", None, date(2021, 10, 11), 2, &[]),
        new_transaction("Misc", None, date(1900, 10, 11), 3, &[]),
    ];
    let inserted = insert_transactions(&mut repo, "alice", new_transactions);

    let transactions = repo
        .get_all_transactions("alice", Filter::none(), Some(PageOptions::new(1, 2)))
        .unwrap();
    assert_eq!(2, transactions.len());
    assert_eq!(transactions.get(0), inserted.get(1));
    assert_eq!(transactions.get(1), inserted.get(2));
}

#[test]
fn test_update_transaction() {
    let mut repo = repo_with_user("alice");
    let new_transaction = generate_new_transaction();
    let transaction = repo
        .create_new_transaction("alice", new_transaction.clone())
        .unwrap();

    let update = NewTransaction::new(
        new_transaction.category,
        Some("Alice".to_string()),
        new_transaction.note,
        new_transaction.date,
        Amount::from_i64(105),
        vec![],
    );
    let updated_transaction = repo
        .update_transaction("alice", transaction.id, update.clone())
        .unwrap();
    assert_eq!(transaction.id, updated_transaction.id);
    assert_ne!(transaction, updated_transaction);
    assert_eq!(updated_transaction.transactee, update.transactee);
}

#[test]
fn test_update_tags() {
    let mut repo = repo_with_user("alice");
    let new_transaction = generate_new_transaction();
    let transaction = repo
        .create_new_transaction("alice", new_transaction.clone())
        .unwrap();

    let update = NewTransaction::new(
        new_transaction.category,
        Some("Alice".to_string()),
        new_transaction.note,
        new_transaction.date,
        Amount::from_i64(105),
        vec!["tag2".to_string(), "tag3".to_string()],
    );
    let updated_transaction = repo
        .update_transaction("alice", transaction.id, update.clone())
        .unwrap();
    assert_eq!(transaction.id, updated_transaction.id);
    assert_ne!(transaction, updated_transaction);
    assert_eq!(updated_transaction.transactee, update.transactee);
    assert_eq!(updated_transaction.tags, update.tags);
}

#[test]
fn test_update_invalid_transaction() {
    let mut repo = repo_with_user("alice");
    let result = repo.update_transaction("alice", 1234, generate_new_transaction());
    assert!(matches!(
        result,
        Err(TransactionRepoError::TransactionNotFound(_))
    ));
}

#[test]
fn test_update_invalid_user() {
    let mut repo = repo_with_user("user1");
    let transaction = repo
        .create_new_transaction("user1", generate_new_transaction())
        .unwrap();

    let result = repo.update_transaction("user2", transaction.id, generate_new_transaction());
    assert!(matches!(
        result,
        Err(TransactionRepoError::TransactionNotFound(_))
    ));
    assert_eq!(repo.get_transaction("user1", transaction.id).unwrap(), transaction);
}

#[test]
fn test_monthly_totals() {
    let mut repo = repo_with_user("alice");
    let new_transactions = vec![
        new_transaction("Misc", None, date(2022, 12, 2), -20, &[]),
        new_transaction("Misc", None, date(2022, 12, 11), 10, &[]),
        new_transaction("Misc", None, date(2022, 12, 11), 15, &[]),
        new_transaction("Misc", None, date(2022, 11, 11), 30, &[]),
    ];
    insert_transactions(&mut repo, "alice", new_transactions);

    let monthly_totals = repo.get_monthly_totals("alice", Filter::none()).unwrap();
    assert_eq!(
        monthly_totals,
        vec![
            MonthlyTotal::new(date(2022, 12, 1), Amount::from_i64(25), Amount::from_i64(20)),
            MonthlyTotal::new(date(2022, 11, 1), Amount::from_i64(30), Amount::zero()),
        ]
    );
}

#[test]
fn test_get_categories() {
    let mut repo = repo_with_user("alice");
    let new_transactions = vec![
        new_transaction("Misc", None, date(2022, 1, 1), 1, &[]),
        new_transaction("Loan", None, date(2022, 1, 2), 2, &[]),
        new_transaction("Misc", None, date(2022, 1, 3), 3, &[]),
    ];
    insert_transactions(&mut repo, "alice", new_transactions);

    let mut categories = repo.get_all_categories("alice").unwrap();
    categories.sort();
    assert_eq!(vec!["Loan".to_owned(), "Misc".to_owned()], categories);
}

#[test]
fn test_get_tags() {
    let mut repo = repo_with_user("alice");
    let new_transactions = vec![
        new_transaction("Misc", None, date(2022, 1, 1), 1, &["tag1", "tag2"]),
        new_transaction("Misc", None, date(2022, 1, 2), 2, &["tag2", "tag3"]),
    ];
    insert_transactions(&mut repo, "alice", new_transactions);

    let mut tags = repo.get_all_tags("alice").unwrap();
    tags.sort();
    assert_eq!(
        vec!["tag1".to_string(), "tag2".to_string(), "tag3".to_string()],
        tags
    );
}

#[test]
fn test_get_transactees() {
    let mut repo = repo_with_user("alice");
    let new_transactions = vec![
        new_transaction("Misc", Some("Bob"), date(2022, 1, 1), 1, &[]),
        new_transaction("Misc", Some("Alice"), date(2022, 1, 2), 2, &[]),
        new_transaction("Misc", Some("Bob"), date(2022, 1, 3), 3, &[]),
    ];
    insert_transactions(&mut repo, "alice", new_transactions);

    let transactees = repo.get_all_transactees("alice", None).unwrap();
    // Sorted by the number of transactions, most first.
    assert_eq!(vec!["Bob".to_owned(), "Alice".to_owned()], transactees);
}

#[test]
fn test_get_category_transactees() {
    let mut repo = repo_with_user("alice");
    let new_transactions = vec![
        new_transaction("Misc", Some("Bob"), date(2022, 1, 1), 1, &[]),
        new_transaction("Groceries", Some("Alice"), date(2022, 1, 2), 2, &[]),
        new_transaction("Misc", Some("Bob"), date(2022, 1, 3), 3, &[]),
    ];
    insert_transactions(&mut repo, "alice", new_transactions);

    let transactees = repo
        .get_all_transactees("alice", Some("Groceries".to_string()))
        .unwrap();
    // Sorted by the number of transactions of that category, most first.
    assert_eq!(vec!["Alice".to_owned(), "Bob".to_owned()], transactees);
}

#[test]
fn test_get_balance() {
    let mut repo = repo_with_user("alice");
    let new_transactions = vec![
        new_transaction("Misc", None, date(2022, 1, 1), 20, &[]),
        new_transaction("Misc", None, date(2022, 1, 2), -10, &[]),
        new_transaction("Misc", None, date(2022, 1, 3), 15, &[]),
    ];
    insert_transactions(&mut repo, "alice", new_transactions);

    let balance = repo.get_balance("alice").unwrap();
    assert_eq!(Amount::from_i64(25), balance);
}

// The same scenarios as the service's listing endpoint exercises.

fn two_listed(repo: &mut MemTransactionRepo) -> Vec<Transaction> {
    let new_transactions = vec![
        new_transaction("Loan", Some("Alice"), date(2021, 10, 11), 10, &[]),
        new_transaction("Misc", Some("Bob"), date(1900, 10, 11), 15, &["loan"]),
    ];
    insert_transactions(repo, "alice", new_transactions)
}

#[test]
fn test_get_transactions_test_get_all_transactions() {
    let mut repo = repo_with_user("alice");
    let new_transactions = vec![
        new_transaction("Misc", Some("Alice"), date(2021, 10, 11), 10, &[]),
        new_transaction("Misc", Some("Bob"), date(1900, 10, 11), 15, &[]),
    ];
    let inserted = insert_transactions(&mut repo, "alice", new_transactions);
    let transactions = repo
        .get_all_transactions("alice", Filter::none(), None)
        .unwrap();
    assert_eq!(inserted, transactions);
}

#[test]
fn test_get_transactions_test_transactions_sorted() {
    let mut repo = repo_with_user("alice");
    let new_transactions = vec![
        new_transaction("Misc", Some("Alice"), date(2021, 10, 11), 10, &[]),
        new_transaction("Misc", Some("Bob"), date(1900, 10, 11), 15, &["loan"]),
        new_transaction("Misc", Some("Bob"), date(2022, 8, 2), 20, &[]),
    ];
    insert_transactions(&mut repo, "alice", new_transactions);
    let transactions = repo
        .get_all_transactions("alice", Filter::none(), None)
        .unwrap();
    assert!(is_sorted_newest_first(&transactions), "transactions not sorted");
}

#[test]
fn test_get_transactions_test_get_transactions_filter_category() {
    let mut repo = repo_with_user("alice");
    two_listed(&mut repo);
    let transactions = repo
        .get_all_transactions(
            "alice",
            Filter::new(None, None, Some("Loan".to_string()), None),
            None,
        )
        .unwrap();
    assert!(transactions.iter().all(|t| t.category == "Loan"));
}

#[test]
fn test_get_transactions_test_get_transactions_filter_transactee() {
    let mut repo = repo_with_user("alice");
    two_listed(&mut repo);
    let transactions = repo
        .get_all_transactions(
            "alice",
            Filter::new(None, None, None, Some("Alice".to_string())),
            None,
        )
        .unwrap();
    assert!(transactions
        .iter()
        .all(|t| t.transactee == Some("Alice".to_owned())));
}

#[test]
fn test_get_transactions_test_get_transactions_filter_from() {
    let mut repo = repo_with_user("alice");
    two_listed(&mut repo);
    let from = date(2021, 1, 1);
    let transactions = repo
        .get_all_transactions("alice", Filter::new(Some(from), None, None, None), None)
        .unwrap();
    assert!(transactions.iter().all(|t| from.is_before(&t.date)));
}

#[test]
fn test_get_transactions_test_get_transactions_filter_until() {
    let mut repo = repo_with_user("alice");
    two_listed(&mut repo);
    let until = date(2021, 1, 1);
    let transactions = repo
        .get_all_transactions("alice", Filter::new(None, Some(until), None, None), None)
        .unwrap();
    assert!(transactions.iter().all(|t| t.date.is_before(&until)));
}

#[test]
fn test_create_api_response() {
    let mut repo = repo_with_user("alice");
    let new_transaction = new_transaction("Misc", Some("Alice"), date(2021, 7, 1), 20, &[]);
    let response_transaction = repo
        .create_new_transaction("alice", new_transaction.clone())
        .unwrap();
    assert_eq!(new_transaction.category, response_transaction.category);
    assert_eq!(new_transaction.transactee, response_transaction.transactee);
    assert_eq!(new_transaction.date, response_transaction.date);
    assert_eq!(new_transaction.amount, response_transaction.amount);
}

// Further cases.

#[test]
fn ids_are_handed_out_in_order() {
    let mut repo = repo_with_user("alice");
    let a = repo.create_new_transaction("alice", generate_new_transaction()).unwrap();
    let b = repo.create_new_transaction("bob", generate_new_transaction()).unwrap();
    assert_eq!(a.id, 0);
    assert_eq!(b.id, 1);
    assert!(repo.can_create());
}

#[test]
fn listing_is_per_user() {
    let mut repo = repo_with_user("alice");
    repo.create_new_transaction("alice", generate_new_transaction()).unwrap();
    repo.create_new_transaction("bob", generate_new_transaction()).unwrap();
    let listed = repo.get_all_transactions("bob", Filter::none(), None).unwrap();
    assert_eq!(listed.len(), 1);
    assert_eq!(listed[0].id, 1);
}

#[test]
fn delete_returns_the_transaction_and_twice_fails() {
    let mut repo = repo_with_user("alice");
    let t = repo.create_new_transaction("alice", generate_new_transaction()).unwrap();
    assert!(matches!(repo.delete_transaction("bob", t.id), Err(TransactionRepoError::TransactionNotFound(_))));
    assert_eq!(repo.delete_transaction("alice", t.id).unwrap(), t);
    assert!(matches!(repo.delete_transaction("alice", t.id), Err(TransactionRepoError::TransactionNotFound(_))));
}

#[test]
fn same_day_ordered_by_id() {
    let mut repo = repo_with_user("alice");
    let first = repo
        .create_new_transaction("alice", new_transaction("Misc", None, date(2020, 2, 29), 1, &[]))
        .unwrap();
    let second = repo
        .create_new_transaction("alice", new_transaction("Misc", None, date(2020, 2, 29), 2, &[]))
        .unwrap();
    let listed = repo.get_all_transactions("alice", Filter::none(), None).unwrap();
    assert_eq!(listed, vec![second, first]);
}

#[test]
fn pages_past_the_end_are_empty() {
    let mut repo = repo_with_user("alice");
    two_listed(&mut repo);
    let listed = repo
        .get_all_transactions("alice", Filter::none(), Some(PageOptions::new(5, 2)))
        .unwrap();
    assert!(listed.is_empty());
    let listed = repo
        .get_all_transactions("alice", Filter::none(), Some(PageOptions::new(1, 10)))
        .unwrap();
    assert_eq!(listed.len(), 1);
    assert_eq!(listed[0].date, date(1900, 10, 11));
}

#[test]
fn filter_bounds_are_inclusive() {
    let mut repo = repo_with_user("alice");
    two_listed(&mut repo);
    let d = date(2021, 10, 11);
    let listed = repo
        .get_all_transactions("alice", Filter::new(Some(d), Some(d), None, None), None)
        .unwrap();
    assert_eq!(listed.len(), 1);
    assert_eq!(listed[0].date, d);
}

#[test]
fn monthly_totals_follow_the_filter() {
    let mut repo = repo_with_user("alice");
    two_listed(&mut repo);
    let totals = repo
        .get_monthly_totals("alice", Filter::new(None, None, Some("Misc".to_string()), None))
        .unwrap();
    assert_eq!(
        totals,
        vec![MonthlyTotal::new(date(1900, 10, 1), Amount::from_i64(15), Amount::zero())]
    );
    assert!(repo.get_monthly_totals("nobody", Filter::none()).unwrap().is_empty());
}

#[test]
fn balance_of_decimals_and_overflow() {
    let mut repo = repo_with_user("alice");
    let cents = Amount::new(1050, 2).unwrap();
    repo.create_new_transaction(
        "alice",
        NewTransaction::new("Misc".to_string(), None, None, date(2022, 1, 1), cents, vec![]),
    )
    .unwrap();
    repo.create_new_transaction("alice", new_transaction("Misc", None, date(2022, 1, 2), 1, &[]))
        .unwrap();
    assert_eq!(repo.get_balance("alice").unwrap(), Amount::new(1150, 2).unwrap());

    let max = Amount::new(79228162514264337593543950335, 0).unwrap();
    repo.create_new_transaction(
        "alice",
        NewTransaction::new("Misc".to_string(), None, None, date(2022, 1, 3), max, vec![]),
    )
    .unwrap();
    assert!(repo.checked_balance("alice").is_none());
    assert!(repo.checked_monthly_totals("alice", Filter::none()).is_none());
    assert!(repo.checked_balance("bob").unwrap().unwrap() == Amount::zero());
}

#[test]
fn transactees_ignore_missing_names() {
    let mut repo = repo_with_user("alice");
    repo.create_new_transaction("alice", new_transaction("Misc", None, date(2022, 1, 1), 1, &[]))
        .unwrap();
    repo.create_new_transaction("alice", new_transaction("Misc", Some("Dan"), date(2022, 1, 2), 1, &[]))
        .unwrap();
    assert_eq!(repo.get_all_transactees("alice", None).unwrap(), vec!["Dan".to_string()]);
}

#[test]
fn totals_of_rows() {
    let rows: Vec<Transaction> = vec![
        Transaction::new(3, "Misc".into(), None, None, date(2023, 1, 5), Amount::from_i64(-4), vec![]),
        Transaction::new(2, "Misc".into(), None, None, date(2023, 1, 2), Amount::from_i64(9), vec![]),
        Transaction::new(1, "Misc".into(), None, None, date(2022, 12, 31), Amount::from_i64(1), vec![]),
    ];
    assert_eq!(
        compute_monthly_totals(&rows).unwrap(),
        vec![
            MonthlyTotal::new(date(2023, 1, 1), Amount::from_i64(9), Amount::from_i64(4)),
            MonthlyTotal::new(date(2022, 12, 1), Amount::from_i64(1), Amount::zero()),
        ]
    );
    assert_eq!(compute_sum(&rows), Some(Amount::from_i64(6)));
    assert_eq!(compute_sum(&vec![]), Some(Amount::zero()));
    assert!(compute_monthly_totals(&vec![]).unwrap().is_empty());
}

#[test]
fn transactions_order_by_date_then_id() {
    let a = Transaction::new(1, "Misc".into(), None, None, date(2022, 1, 1), Amount::from_i64(1), vec![]);
    let b = Transaction::new(2, "Loan".into(), None, None, date(2022, 1, 1), Amount::from_i64(9), vec![]);
    let c = Transaction::new(0, "Misc".into(), None, None, date(2021, 12, 31), Amount::from_i64(1), vec![]);
    assert!(a < b);
    assert!(c < a);
    assert!(b > c);
    assert_eq!(a.partial_cmp(&a.clone()), Some(std::cmp::Ordering::Equal));
}

#[test]
fn tags_to_add_and_remove() {
    let existing = vec!["tag1".to_string(), "tag2".to_string()];
    let updated = vec!["tag2".to_string(), "tag3".to_string(), "tag4".to_string()];
    let (added, removed) = tag_changes(&existing, &updated);
    assert_eq!(added, vec!["tag3".to_string(), "tag4".to_string()]);
    assert_eq!(removed, vec!["tag1".to_string()]);
    let (added, removed) = tag_changes(&existing, &existing);
    assert!(added.is_empty() && removed.is_empty());
}

#[test]
fn monthly_totals_are_not_negative() {
    let mut repo = repo_with_user("alice");
    let new_transactions = vec![
        new_transaction("Misc", None, date(2022, 5, 2), -7, &[]),
        new_transaction("Misc", None, date(2022, 5, 3), 0, &[]),
        new_transaction("Misc", None, date(2022, 4, 3), -1, &[]),
    ];
    insert_transactions(&mut repo, "alice", new_transactions);
    let totals = repo.get_monthly_totals("alice", Filter::none()).unwrap();
    assert_eq!(
        totals,
        vec![
            MonthlyTotal::new(date(2022, 5, 1), Amount::zero(), Amount::from_i64(7)),
            MonthlyTotal::new(date(2022, 4, 1), Amount::zero(), Amount::from_i64(1)),
        ]
    );
    assert!(totals.iter().all(|t| t.income.mantissa >= 0 && t.expense.mantissa >= 0 && t.month.day == 1));
}

#[test]
fn monthly_totals_net_out_to_the_balance() {
    let mut repo = repo_with_user("alice");
    let cents = |m: i128| Amount::new(m, 2).unwrap();
    for (d, a) in [
        (date(2023, 3, 9), cents(1250)),
        (date(2023, 3, 1), cents(-399)),
        (date(2023, 2, 28), Amount::from_i64(40)),
        (date(2023, 2, 2), cents(-1)),
    ] {
        repo.create_new_transaction(
            "alice",
            NewTransaction::new("Misc".into(), None, None, d, a, vec![]),
        )
        .unwrap();
    }
    let totals = repo.get_monthly_totals("alice", Filter::none()).unwrap();
    let balance = repo.get_balance("alice").unwrap();
    let mut net = Amount::zero();
    for t in &totals {
        net = net.checked_add(&t.income).unwrap().checked_sub(&t.expense).unwrap();
    }
    assert_eq!(net, balance);
    assert_eq!(balance, cents(4850));
}
