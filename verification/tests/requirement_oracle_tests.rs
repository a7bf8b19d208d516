use regex::Regex;
use snakepit::constraint::Constraint;
use snakepit::markers::{parse_requirement, EnvironmentMarker, TargetEnvironment};
use snakepit::pep440::ParseError;

const REQUIREMENT_PATTERN: &str = r"(?x)
        ^
        (?P<name>[a-zA-Z0-9]([a-zA-Z0-9._-]*[a-zA-Z0-9])?)  # Package name
        (?:\[(?P<extras>[^\]]+)\])?                          # Optional extras
        \s*
        (?P<specifier>[^;]*)?                                # Version specifier
        (?:;\s*(?P<marker>.*))?                              # Environment marker
        $
    ";

type Parts = (String, Vec<String>, Vec<(String, String)>, Option<String>);

fn specifiers(spec_str: &str) -> Vec<(String, String)> {
    if spec_str.is_empty() {
        return Vec::new();
    }
    let mut specs = Vec::new();
    let spec_str = spec_str.trim().trim_start_matches('(').trim_end_matches(')').trim();
    for part in spec_str.split(',') {
        let part = part.trim();
        if part.is_empty() {
            continue;
        }
        let operators = ["===", "~=", "!=", "<=", ">=", "==", "<", ">"];
        let mut found = false;
        for op in &operators {
            if part.starts_with(op) {
                specs.push((op.to_string(), part[op.len()..].trim().to_string()));
                found = true;
                break;
            }
        }
        if !found {
            specs.push(("==".to_string(), part.to_string()));
        }
    }
    specs
}

fn by_pattern(re: &Regex, text: &str) -> Option<Parts> {
    let caps = re.captures(text.trim())?;
    let name = caps.name("name")?.as_str().to_string();
    let extras = caps
        .name("extras")
        .map(|m| m.as_str().split(',').map(|s| s.trim().to_string()).collect())
        .unwrap_or_default();
    let specs = match caps.name("specifier") {
        Some(s) => specifiers(s.as_str().trim()),
        None => Vec::new(),
    };
    let marker = caps.name("marker").map(|m| m.as_str().to_string());
    Some((name, extras, specs, marker))
}

fn check(re: &Regex, text: &str) {
    let expected = by_pattern(re, text);
    match parse_requirement(text) {
        Ok(d) => {
            let got: Parts = (
                d.name,
                d.extras,
                d.version_specs.into_iter().map(|s| (s.operator, s.version)).collect(),
                d.marker.map(|m| m.raw),
            );
            assert_eq!(Some(got), expected, "{:?}", text);
        }
        Err(e) => match expected {
            None => assert_eq!(e, ParseError::InvalidRequirementFormat, "{:?}", text),
            Some(parts) => {
                let first = parts
                    .2
                    .iter()
                    .find_map(|(op, version)| Constraint::from_operator(op, version).err());
                assert_eq!(Some(e), first, "{:?}", text);
            }
        },
    }
}

fn pieces() -> Vec<&'static str> {
    vec![
        "", "a", "A1", "pkg", "-", "_", ".", "[", "]", "[x]", "[x,y]", "[]", "[ a , b ]", " ", "\t", "\n",
        ";", ">=1.0", "==2", "<3", ",", "(", ")", "~=1.4.2", "!=1", "===1", "1.0", "python_version>='3.6'",
        "; extra == 'x'", "\u{a0}", "é",
    ]
}

#[test]
fn requirement_parser_agrees_with_the_pattern() {
    let re = Regex::new(REQUIREMENT_PATTERN).unwrap();
    let ps = pieces();
    for a in &ps {
        for b in &ps {
            for c in &ps {
                check(&re, &format!("{}{}{}", a, b, c));
                check(&re, &format!("pkg{}{}{}", a, b, c));
            }
        }
    }
    for text in [
        "requests[socks]>=2.25.0,!=2.26.0; python_version>='3.6'",
        "a[x;\ny]", "a[x];\n b", "a ;  \n", "a;\n", "a; b\n", "name (>=1.0,<2.0) ; os_name == 'nt'",
        "a((>=1.0))", "a>=1.0,,<2", "a [x]>=1", "a.-_b", "a..", "a>= 1.0 ; x ; y",
    ] {
        check(&re, text);
    }
}

/// What the pattern with the comparison of texts yields; nothing where the
/// literal is none of those for which texts and versions order alike.
fn marker_by_pattern(re: &Regex, marker: &str, python_version: &str) -> Option<bool> {
    if let Some(caps) = re.captures(marker) {
        let op = caps.get(1).unwrap().as_str();
        let required = caps.get(2).unwrap().as_str();
        if !["3.7", "3.8", "3.9"].contains(&required) {
            return None;
        }
        return Some(match op {
            ">=" => python_version >= required,
            "<=" => python_version <= required,
            ">" => python_version > required,
            "<" => python_version < required,
            "==" => python_version == required,
            "!=" => python_version != required,
            _ => true,
        });
    }
    Some(true)
}

#[test]
fn marker_clauses_agree_with_the_pattern() {
    let env = TargetEnvironment {
        python_version: "3.8".to_string(),
        sys_platform: "linux".to_string(),
        platform_system: "Linux".to_string(),
        platform_machine: "x86_64".to_string(),
    };
    let ps = vec![
        "", "python_version", "python_versio", " ", "\t", ">=", "<=", ">", "<", "==", "!=", "=", "~=", "'3.7'",
        "\"3.9\"", "'3.8\"", "''", "'", "3.8", "'3.9", " and ", "x",
    ];
    let pattern = format!(r#"{}\s*(>=|<=|>|<|==|!=)\s*["']([^"']+)["']"#, "python_version");
    let re = Regex::new(&pattern).unwrap();
    for a in &ps {
        for b in &ps {
            for c in &ps {
                for marker in [format!("python_version{}{}{}", a, b, c), format!("{}{}{}", a, b, c), format!("python_version >={}{}{}", a, b, c)] {
                    let got = EnvironmentMarker { raw: marker.clone() }.evaluate(&env);
                    if let Some(expected) = marker_by_pattern(&re, &marker, "3.8") {
                        assert_eq!(got, expected, "{:?}", marker);
                    }
                }
            }
        }
    }
}
