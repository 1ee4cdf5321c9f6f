use ayuc::ast::Ast;
use ayuc::registry::ModuleRegistry;

#[test]
fn modules_are_added_and_found_by_path() {
    let mut reg = ModuleRegistry::new();
    let a = reg.add_ast("/src/a.ayu".to_string(), Ast { items: vec![] });
    let b = reg.add_failed_ast("/src/b.ayu".to_string());
    assert_ne!(a, b);
    assert_eq!(reg.module_of("/src/a.ayu"), Some(a));
    assert_eq!(reg.module_of("/src/b.ayu"), Some(b));
    assert_eq!(reg.module_of("/src/c.ayu"), None);
    assert!(reg.tree(a).is_some());
    assert!(reg.tree(b).is_none());
    // Adding the same path again moves the path to the new module.
    let a2 = reg.add_ast("/src/a.ayu".to_string(), Ast { items: vec![] });
    assert_ne!(a2, a);
    assert_eq!(reg.module_of("/src/a.ayu"), Some(a2));
    assert!(reg.tree(a).is_some());
}
