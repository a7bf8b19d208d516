use regex::Regex;
use snakepit::pep440::Version;

const VERSION_PATTERN: &str = r"(?ix)
        \A
        v?
        (?:
            (?:(?P<epoch>[0-9]+)!)?                           # epoch
            (?P<release>[0-9]+(?:\.[0-9]+)*)                  # release segment
            (?P<pre>                                          # pre-release
                [-_\.]?
                (?P<pre_l>(a|b|c|rc|alpha|beta|pre|preview))
                [-_\.]?
                (?P<pre_n>[0-9]+)?
            )?
            (?P<post>                                         # post release
                (?:-(?P<post_n1>[0-9]+))
                |
                (?:
                    [-_\.]?
                    (?P<post_l>post|rev|r)
                    [-_\.]?
                    (?P<post_n2>[0-9]+)?
                )
            )?
            (?P<dev>                                          # dev release
                [-_\.]?
                (?P<dev_l>dev)
                [-_\.]?
                (?P<dev_n>[0-9]+)?
            )?
        )
        (?:\+(?P<local>[a-z0-9]+(?:[-_\.][a-z0-9]+)*))?       # local version
        \z
    ";

fn number(caps: &regex::Captures, name: &str) -> Option<Option<u64>> {
    caps.name(name).map(|m| m.as_str().parse::<u64>().ok())
}

/// What the pattern with the number conversions yields: the segments, or
/// nothing where the text does not match or a number does not fit.
fn by_pattern(re: &Regex, text: &str) -> Option<(u64, Vec<u64>, Option<(String, u64)>, Option<u64>, Option<u64>, Option<String>)> {
    let caps = re.captures(text.trim())?;
    let epoch = match number(&caps, "epoch") {
        Some(n) => n?,
        None => 0,
    };
    let mut release = Vec::new();
    for part in caps.name("release")?.as_str().split('.') {
        release.push(part.parse::<u64>().ok()?);
    }
    let pre = match caps.name("pre_l") {
        Some(l) => {
            let n = match number(&caps, "pre_n") {
                Some(n) => n?,
                None => 0,
            };
            let lower = l.as_str().to_lowercase();
            let tag = match lower.as_str() {
                "alpha" => "a",
                "beta" => "b",
                "c" | "pre" | "preview" => "rc",
                other => other,
            };
            Some((tag.to_string(), n))
        }
        None => None,
    };
    let post = if let Some(n) = number(&caps, "post_n1") {
        Some(n?)
    } else if caps.name("post_l").is_some() {
        Some(match number(&caps, "post_n2") {
            Some(n) => n?,
            None => 0,
        })
    } else {
        None
    };
    let dev = if caps.name("dev_l").is_some() {
        Some(match number(&caps, "dev_n") {
            Some(n) => n?,
            None => 0,
        })
    } else {
        None
    };
    let local = caps.name("local").map(|m| m.as_str().to_string());
    Some((epoch, release, pre, post, dev, local))
}

fn by_library(text: &str) -> Option<(u64, Vec<u64>, Option<(String, u64)>, Option<u64>, Option<u64>, Option<String>)> {
    Version::parse(text).ok().map(|v| (v.epoch, v.release, v.pre, v.post, v.dev, v.local))
}

fn pieces() -> Vec<&'static str> {
    vec![
        "", "v", "V", "1", "0", "12", "1.0", "1!", "!", ".", "-", "_", "a", "A", "b", "c", "rc", "RC",
        "alpha", "Alpha", "beta", "pre", "preview", "previe", "post", "POST", "po\u{17f}t", "rev",
        "r", "dev", "Dev", "de", "+", "+abc", "+a.b", "+a..b", "+A1", "+\u{212a}", "x", " ", "\n",
        "\u{a0}", ".1", "-1", "_1", ".post1", "-post-1", ".dev", "9", "al", "1a", "a1",
    ]
}

#[test]
fn parser_agrees_with_the_pattern_on_two_pieces() {
    let re = Regex::new(VERSION_PATTERN).unwrap();
    let ps = pieces();
    for a in &ps {
        for b in &ps {
            let text = format!("1.0{}{}", a, b);
            assert_eq!(by_library(&text), by_pattern(&re, &text), "{:?}", text);
            let text = format!("{}{}", a, b);
            assert_eq!(by_library(&text), by_pattern(&re, &text), "{:?}", text);
        }
    }
}

#[test]
fn parser_agrees_with_the_pattern_on_three_pieces() {
    let re = Regex::new(VERSION_PATTERN).unwrap();
    let ps = pieces();
    for a in &ps {
        for b in &ps {
            for c in &ps {
                let text = format!("2{}{}{}", a, b, c);
                assert_eq!(by_library(&text), by_pattern(&re, &text), "{:?}", text);
            }
        }
    }
}

#[test]
fn parser_agrees_with_the_pattern_on_whole_versions() {
    let re = Regex::new(VERSION_PATTERN).unwrap();
    for text in [
        "1.0a1.post2.dev3+ubuntu.1", "v1!2.3.4-rc.5-post_6.dev7+x-y_z.0", "1.0-1.dev2",
        "1.0a-1", "1.0a.-1", "1.0post", "1.0.post.dev", "1.0r1dev1", "1.0c.r.dev",
        "18446744073709551615", "18446744073709551616", "1.0a18446744073709551616",
        "00000000000000000000000001", "  1.0\t", "1.0 ", "\u{2003}1.0\u{3000}", "1.0\u{200b}",
        "1.0previewdev", "1.0alphabeta", "1.0-alpha-1-post-2", "1.0--1", "1.0.-1",
    ] {
        assert_eq!(by_library(text), by_pattern(&re, text), "{:?}", text);
    }
}
