use hound_cast::entity::Entity;
use hound_cast::entity::EntityTraits;

#[derive(Debug, Clone, PartialEq)]
struct MockAttribute(i32);

type MockEntity = Entity<MockAttribute>;

#[test]
fn test_new_mock_creation() {
    let mock_entity = MockEntity::new("TestEntity", MockAttribute(23));
    assert_eq!(mock_entity.get_name(), "TestEntity");
    assert_eq!(mock_entity.get_attribute(), &MockAttribute(23));
}

#[test]
fn test_entity_traits_interface() {
    let e: Entity<MockAttribute> = EntityTraits::new("slot", MockAttribute(7));
    assert_eq!(EntityTraits::get_name(&e), "slot");
    assert_eq!(EntityTraits::get_attribute(&e), &MockAttribute(7));
}
