use tagged_eval::err::Error;
use tagged_eval::genders::{simple_vector, string, Registry, BOOLEAN, NUMBER};
use tagged_eval::heap::Heap;
use tagged_eval::{
    allocate_object, dynamic_call, make_immediate, release_object, Gender, Method, Object, Payload,
    OBJECT_SIZE,
};

#[test]
fn make_an_object() {
    let mut registry = Registry::new();
    let gender = registry.register(Gender {
        size: 4,
        name: "anonymous test gender for lib.rs/test::make_an_object".into(),
        methods: Vec::new(),
    });
    let mut heap = Heap::new();
    let obj = allocate_object(&registry, &mut heap, gender);

    assert_eq!(obj.gender, gender);
}

#[test]
fn builtin_descriptors() {
    let registry = Registry::new();
    assert_eq!(registry.get(NUMBER).size, 0);
    assert_eq!(registry.get(NUMBER).name, "number");
    assert!(registry.get(NUMBER).methods.is_empty());
    assert_eq!(registry.get(BOOLEAN).size, 0);
    assert_eq!(registry.get(BOOLEAN).name, "boolean");
    assert!(registry.get(BOOLEAN).methods.is_empty());
}

#[test]
fn immediate_objects_compare_bitwise() {
    let registry = Registry::new();
    let a = make_immediate(&registry, NUMBER, 42);
    let b = make_immediate(&registry, NUMBER, 42);
    let c = make_immediate(&registry, NUMBER, 43);
    assert_eq!(a, b);
    assert_ne!(a, c);
    assert_ne!(a, make_immediate(&registry, BOOLEAN, 42));
}

#[test]
fn distinct_descriptor_instances_are_distinct_types() {
    let mut registry = Registry::new();
    let first = registry.register(Gender {
        size: 0,
        name: "twin".into(),
        methods: Vec::new(),
    });
    let second = registry.register(Gender {
        size: 0,
        name: "twin".into(),
        methods: Vec::new(),
    });

    let a = make_immediate(&registry, first, 7);
    let b = make_immediate(&registry, second, 7);
    assert_ne!(a, b);
}

#[test]
fn try_extract_bool_reads_booleans_only() {
    assert_eq!(Object::boolean(true).try_extract_bool(), Some(true));
    assert_eq!(Object::boolean(false).try_extract_bool(), Some(false));
    assert_eq!(Object::number(1).try_extract_bool(), None);
}

#[test]
fn shallow_copy_duplicates_the_handle() {
    let obj = Object::number(99);
    let copy = obj.shallow_copy();
    assert_eq!(obj, copy);
}

#[test]
fn allocate_and_release_cycles() {
    let mut registry = Registry::new();
    let gender = registry.register(Gender {
        size: 3,
        name: "three bytes".into(),
        methods: Vec::new(),
    });
    let mut heap = Heap::new();
    assert_eq!(heap.live_allocations(), 0);

    for _ in 0..3 {
        let obj = allocate_object(&registry, &mut heap, gender);
        assert_eq!(heap.live_allocations(), 1);
        assert!(matches!(obj.payload, Payload::Owned { .. }));
        release_object(&registry, &mut heap, obj);
        assert_eq!(heap.live_allocations(), 0);
    }

    let a = allocate_object(&registry, &mut heap, gender);
    let b = allocate_object(&registry, &mut heap, gender);
    assert_ne!(a, b);
    assert_eq!(heap.live_allocations(), 2);
    release_object(&registry, &mut heap, a);
    release_object(&registry, &mut heap, b);
    assert_eq!(heap.live_allocations(), 0);
}

#[test]
fn releasing_an_immediate_leaves_the_heap_alone() {
    let registry = Registry::new();
    let mut heap = Heap::new();
    release_object(&registry, &mut heap, Object::number(5));
    assert_eq!(heap.live_allocations(), 0);
}

#[test]
fn dynamic_call_misses_on_an_empty_table() {
    let registry = Registry::new();
    let obj = Object::boolean(true);
    assert!(matches!(
        dynamic_call(&registry, obj, "frobnicate"),
        Err(Error::Absent)
    ));
}

#[test]
fn dynamic_call_finds_a_registered_method() {
    let mut registry = Registry::new();
    let gender = registry.register(Gender {
        size: 0,
        name: "pokeable".into(),
        methods: vec![("poke".to_string(), Method {})],
    });
    let obj = make_immediate(&registry, gender, 11);

    let res = dynamic_call(&registry, obj, "poke").unwrap();
    assert_eq!(res, obj);
    assert!(matches!(
        dynamic_call(&registry, obj, "prod"),
        Err(Error::Absent)
    ));
}

#[test]
fn string_descriptor_accounts_its_size() {
    let g = string(5);
    assert_eq!(g.size, 5);
    assert_eq!(g.name, "string of length 5");
    assert!(g.methods.is_empty());

    let g = string(0);
    assert_eq!(g.size, 0);
    assert_eq!(g.name, "string of length 0");

    let g = string(12345);
    assert_eq!(g.size, 12345);
    assert_eq!(g.name, "string of length 12345");
}

#[test]
fn simple_vector_descriptor_accounts_its_size() {
    let g = simple_vector(3);
    assert_eq!(g.size, 3 * OBJECT_SIZE);
    assert_eq!(g.name, "simple vector of length 3");
    assert!(g.methods.is_empty());

    let g = simple_vector(0);
    assert_eq!(g.size, 0);
    assert_eq!(g.name, "simple vector of length 0");
}

#[test]
fn error_messages() {
    assert_eq!(Error::Hcf.message(), "halt and catch fire");
    assert_eq!(Error::Absent.message(), "a none error, i guess");
    assert_eq!(
        Error::UnboundSymbol("foo".to_string()).message(),
        "the symbol foo is unbound"
    );
}
