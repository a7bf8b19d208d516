use snakepit::hallucinatory_fangs::{FangsError, HallucinatoryFangs, ModificationRule, ModificationType};

const MODULE: &str = "import os\n\ndef load(path, mode='r'):\n    return open(path, mode)\n\ndef save(path):\n    pass\n";

fn fangs() -> HallucinatoryFangs {
    HallucinatoryFangs::new("/tmp/fangs".to_string())
}

fn missing(r: Result<String, FangsError>) -> String {
    match r {
        Err(FangsError::FunctionNotFound(name)) => name,
        Ok(text) => panic!("expected a failure, got {:?}", text),
    }
}

#[test]
fn logging_goes_behind_the_signature() {
    let out = fangs().inject_logging(MODULE, "load").unwrap();
    assert_eq!(
        out,
        "import os\n\ndef load(path, mode='r'):\n    import logging\n    logging.info('🔍 Calling load()')\n\n    return open(path, mode)\n\ndef save(path):\n    pass\n"
    );
    assert_eq!(missing(fangs().inject_logging(MODULE, "loa")), "loa");
    assert_eq!(missing(fangs().inject_logging("def load(path)", "load")), "load");
    assert_eq!(missing(fangs().inject_logging("", "load")), "load");
}

#[test]
fn retry_wrapper_goes_before_the_definition() {
    let out = fangs().inject_retry(MODULE, "save", 3, 250).unwrap();
    let decorator = format!(
        "def _retry_wrapper(func):\n    \
         def wrapper(*args, **kwargs):\n        \
         for attempt in range({}):\n            \
         try:\n                \
         return func(*args, **kwargs)\n            \
         except Exception as e:\n                \
         if attempt == {} - 1:\n                    \
         raise\n                \
         import time\n                \
         time.sleep({} / 1000.0)\n        \
         return None\n    \
         return wrapper\n\n\
         @_retry_wrapper\n",
        3, 3, 250
    );
    let at = MODULE.find("def save(").unwrap();
    assert_eq!(out, format!("{}{}{}", &MODULE[..at], decorator, &MODULE[at..]));
    let big = fangs().inject_retry("def f(", "f", u32::MAX, u64::MAX).unwrap();
    assert!(big.contains("range(4294967295)"));
    assert!(big.contains("time.sleep(18446744073709551615 / 1000.0)"));
    assert!(big.ends_with("@_retry_wrapper\ndef f("));
    assert_eq!(missing(fangs().inject_retry(MODULE, "gone", 1, 1)), "gone");
}

#[test]
fn cache_brings_its_import() {
    let out = fangs().inject_cache(MODULE, "load", 60).unwrap();
    assert_eq!(
        out,
        "import functools\nimport os\n\n@functools.lru_cache(maxsize=128)\ndef load(path, mode='r'):\n    return open(path, mode)\n\ndef save(path):\n    pass\n"
    );
    let again = fangs().inject_cache(&out, "save", 60).unwrap();
    assert!(again.starts_with("import functools\nimport os\n"));
    assert!(again.contains("@functools.lru_cache(maxsize=128)\ndef save(path):"));
    assert_eq!(again.matches("import functools").count(), 1);
    assert_eq!(missing(fangs().inject_cache(MODULE, "Load", 60)), "Load");
}

#[test]
fn fixed_results_and_custom_code_go_behind_the_signature() {
    let out = fangs().mock_return(MODULE, "save", "42").unwrap();
    assert!(out.ends_with("def save(path):\n    return 42\n\n    pass\n"));
    let out = fangs().inject_custom_code(MODULE, "load", "print(path)").unwrap();
    assert!(out.starts_with("import os\n\ndef load(path, mode='r'):\n    print(path)\n\n    return open"));
    let first = fangs().mock_return("def f(): pass\ndef f(): pass\n", "f", "None").unwrap();
    assert_eq!(first, "def f():\n    return None\n pass\ndef f(): pass\n");
    assert_eq!(missing(fangs().mock_return(MODULE, "", "1")), "");
    assert_eq!(missing(fangs().inject_custom_code("x = 1", "f", "y")), "f");
}

#[test]
fn rules_are_applied_by_their_kind() {
    let mut f = fangs();
    assert_eq!(f.sandbox_dir, "/tmp/fangs");
    assert!(f.modifications.is_empty());
    f.add_modification(ModificationRule {
        target_module: "m".to_string(),
        target_function: "save".to_string(),
        modification_type: ModificationType::MockReturn { return_value: "0".to_string() },
    });
    f.add_modification(ModificationRule {
        target_module: "m".to_string(),
        target_function: "load".to_string(),
        modification_type: ModificationType::InjectLogging,
    });
    assert_eq!(f.modifications.len(), 2);
    assert_eq!(f.modifications[1].target_function, "load");
    let expected = fangs().mock_return(MODULE, "save", "0").unwrap();
    assert_eq!(f.apply_modification(MODULE, &f.modifications[0]).unwrap(), expected);
    let expected = fangs().inject_logging(MODULE, "load").unwrap();
    assert_eq!(f.apply_modification(MODULE, &f.modifications[1]).unwrap(), expected);
    let rule = |kind| ModificationRule {
        target_module: "m".to_string(),
        target_function: "load".to_string(),
        modification_type: kind,
    };
    assert_eq!(
        f.apply_modification(MODULE, &rule(ModificationType::InjectCache { ttl_seconds: 1 })).unwrap(),
        fangs().inject_cache(MODULE, "load", 1).unwrap()
    );
    assert_eq!(
        f.apply_modification(MODULE, &rule(ModificationType::InjectRetry { max_attempts: 2, backoff_ms: 5 }))
            .unwrap(),
        fangs().inject_retry(MODULE, "load", 2, 5).unwrap()
    );
    assert_eq!(
        f.apply_modification(MODULE, &rule(ModificationType::CustomCode { code: "x".to_string() })).unwrap(),
        fangs().inject_custom_code(MODULE, "load", "x").unwrap()
    );
}
