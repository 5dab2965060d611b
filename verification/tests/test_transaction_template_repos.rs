use ledger::amount::Amount;
use ledger::repo::mem_repo::transaction_template_repo::MemTransactionTemplateRepo;
use ledger::repo::transaction_template_repo::{NewTransactionTemplate, TransactionTemplateRepoError};

struct NewTemplateGenerator {
    count: i64,
}

impl NewTemplateGenerator {
    fn default() -> NewTemplateGenerator {
        NewTemplateGenerator { count: 0 }
    }

    fn generate(&mut self) -> NewTransactionTemplate {
        self.count += 1;
        NewTransactionTemplate::new(
            Some(format!("category {}", self.count)),
            Some(format!("transactee {}", self.count)),
            Some(Amount::from_i64(self.count * 7)),
            Some(format!("note {}", self.count)),
            vec![format!("tag{}", self.count)],
        )
    }
}

#[test]
fn test_create_and_get_templates() {
    let mut repo = MemTransactionTemplateRepo::new();
    let mut generator = NewTemplateGenerator::default();
    let new_template = generator.generate();

    repo.create_template("user", new_template.clone()).unwrap();

    let templates = repo.get_templates("user").unwrap();
    assert_eq!(templates.len(), 1);
    assert_eq!(templates[0].category, new_template.category);
    assert_eq!(templates[0].transactee, new_template.transactee);
    assert_eq!(templates[0].amount, new_template.amount);
    assert_eq!(templates[0].note, new_template.note);
    assert_eq!(templates[0].tags, new_template.tags);
}

#[test]
fn test_update_template() {
    let mut repo = MemTransactionTemplateRepo::new();
    let mut generator = NewTemplateGenerator::default();
    let template = repo.create_template("user", generator.generate()).unwrap();

    let updated_template = generator.generate();
    repo.update_template("user", template.template_id, updated_template.clone())
        .unwrap();

    let templates = repo.get_templates("user").unwrap();
    assert_eq!(templates.len(), 1);
    assert_eq!(templates[0].template_id, template.template_id);
    assert_eq!(templates[0].category, updated_template.category);
    assert_eq!(templates[0].transactee, updated_template.transactee);
    assert_eq!(templates[0].amount, updated_template.amount);
    assert_eq!(templates[0].note, updated_template.note);
    assert_eq!(templates[0].tags, updated_template.tags);
}

#[test]
fn test_update_different_user() {
    let mut repo = MemTransactionTemplateRepo::new();
    let mut generator = NewTemplateGenerator::default();
    let template = repo.create_template("user", generator.generate()).unwrap();

    let result = repo.update_template("different_user", template.template_id, generator.generate());
    assert!(matches!(
        result,
        Err(TransactionTemplateRepoError::TemplateNotFound(_))
    ))
}

#[test]
fn test_transaction_template_repos_test_get_invalid_user() {
    let mut repo = MemTransactionTemplateRepo::new();
    let mut generator = NewTemplateGenerator::default();
    repo.create_template("user1", generator.generate()).unwrap();

    let result = repo.get_templates("invalid_user").unwrap();
    assert!(result.is_empty());
}

#[test]
fn test_delete_template() {
    let mut repo = MemTransactionTemplateRepo::new();
    let mut generator = NewTemplateGenerator::default();
    let template = repo.create_template("user", generator.generate()).unwrap();

    let result = repo.delete_template("user", template.template_id);
    assert!(result.is_ok());

    let result = repo.delete_template("user", template.template_id);
    assert!(matches!(
        result,
        Err(TransactionTemplateRepoError::TemplateNotFound(_))
    ));
}

#[test]
fn templates_are_listed_by_id_per_user() {
    let mut repo = MemTransactionTemplateRepo::new();
    let mut generator = NewTemplateGenerator::default();
    let a = repo.create_template("ann", generator.generate()).unwrap();
    let b = repo.create_template("ben", generator.generate()).unwrap();
    let c = repo.create_template("ann", generator.generate()).unwrap();
    assert_eq!((a.template_id, b.template_id, c.template_id), (0, 1, 2));
    assert!(repo.can_create());

    let ids: Vec<i32> = repo.get_templates("ann").unwrap().iter().map(|t| t.template_id).collect();
    assert_eq!(ids, vec![0, 2]);

    repo.update_template("ann", 0, generator.generate()).unwrap();
    let ids: Vec<i32> = repo.get_templates("ann").unwrap().iter().map(|t| t.template_id).collect();
    assert_eq!(ids, vec![0, 2]);

    let deleted = repo.delete_template("ann", 2).unwrap();
    assert_eq!(deleted.template_id, 2);
    assert!(matches!(
        repo.delete_template("ann", 1),
        Err(TransactionTemplateRepoError::TemplateNotFound(1))
    ));
    assert_eq!(repo.get_templates("ben").unwrap().len(), 1);
}
