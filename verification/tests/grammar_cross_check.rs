//! Differential checks: the verified matchers agree with the equivalent
//! regular-expression forms of the same grammars on a battery of inputs.

use regex::Regex;
use review_gate::documents::is_spec_document_path;
use review_gate::editors::parse_editor_list;
use review_gate::mention::parse_author_mention;

#[test]
fn mention_parser_agrees_with_pattern_form() {
    let re = Regex::new(r"^[^()<>,@]+ \(@([a-zA-Z\d-]+)\)(?: <[^@][^>]*@[^>]+\.[^>]+>)?$").unwrap();
    let cases = [
        "Alice Dev (@alice)",
        "Bob Smith Jr (@Bob-2)",
        "Alice Dev (@alice) <alice@example.com>",
        "Alice (@alice) <a+filter@sub.example.co.uk>",
        "Alice (@alice) <>a@c.d>",
        "Alice (@alice) <a@b@cd.e>",
        "Alice (@alice) <ab@c.@d.>",
        "Alice (@alice) <x@y.z>",
        "Alice (@alice) <xy@z.>",
        "Alice (@alice) <a@b>",
        "Alice (@alice) <a@.c>",
        "Alice (@alice) <@example.com>",
        "Alice (@alice) <no-at-sign.com>",
        "Alice (@alice) <a@b.c> ",
        "Alice (@alice) x",
        "Alice (@alice) (@bob)",
        "Alice Dev",
        "(@alice)",
        " (@alice)",
        "Alice (@)",
        "Alice (@al ice)",
        "A,B (@ab)",
        "a@b (@ab)",
        "Alice(@alice)",
        "A (x) (@b)",
        "A  (@b)",
        "ünïcode nàme (@handle-123)",
        "name (@UPPER)",
        "",
        " ",
        "()",
        "x (@y)",
        "xy (@z) <q@r.s>",
        "tricky <name (@t)",
        "tricky >name (@t)",
    ];
    for s in cases {
        let expect = re
            .captures(s)
            .map(|c| c.get(1).unwrap().as_str().to_string());
        assert_eq!(parse_author_mention(s), expect, "entry: {s:?}");
    }
}

#[test]
fn path_matcher_agrees_with_pattern_form() {
    let re = Regex::new(r"^(EIPS|ERCS)/(eip|erc)-[0-9]+\.md$").unwrap();
    let cases = [
        "EIPS/eip-1.md",
        "ERCS/erc-20.md",
        "EIPS/erc-7.md",
        "ERCS/eip-7.md",
        "docs/EIPS/eip-123.md",
        "EIPS/eip-1.mdx",
        "EIPS/eip-123md.md",
        "EIPS/EIPS/eip-1.md",
        "EIPS/eip-.md",
        "EIPS/eip-1md",
        "EIPS/eip-12",
        "eip-1.md",
        "eips/eip-1.md",
        "EIPS/Eip-1.md",
        "EIPS-eip-1.md",
        "README.md",
        "",
        "EIPS/eip-000042.md",
        "aEIPS/eip-1.md.bak",
        "EIPS/eip-1.2.md",
        "ERCS/erc-1.md EIPS",
    ];
    for s in cases {
        assert_eq!(is_spec_document_path(s), re.is_match(s), "path: {s:?}");
    }
}

#[test]
fn editor_lines_agree_with_pattern_form() {
    let re = Regex::new(r"(?m)^  - (.+)").unwrap();
    let contents = [
        "editors:\n  - Alice\n  - Bob\n",
        "  - solo",
        "x\n   - deep\n  -tight\n  - ok\n\n  - \n",
        "  - Mixed Case Name\nplain\n  - with space \n",
        "",
        "\n\n",
        "  - tab\there\n",
    ];
    for content in contents {
        let set = parse_editor_list(content);
        let mut captured: Vec<String> = Vec::new();
        for (_, [name]) in re.captures_iter(content).map(|c| c.extract()) {
            captured.push(name.to_lowercase());
        }
        for name in &captured {
            assert!(set.contains(name), "missing {name:?} from {content:?}");
        }
        // and no uncaptured line contributes its text as a member
        for line in content.split('\n') {
            let lowered = line.to_lowercase();
            if !captured.contains(&lowered) {
                assert!(!set.contains(&lowered), "unexpected member from {line:?}");
            }
            let tail = if line.len() > 4 {
                line[4..].to_lowercase()
            } else {
                String::new()
            };
            if !captured.contains(&tail) && !tail.is_empty() {
                assert!(!set.contains(&tail), "unexpected member from {line:?}");
            }
        }
    }
}
