use prog::shell::{finish_powershell, if_check_statement, lines, ShellKind};

fn names(v: &[&str]) -> Vec<String> {
    v.iter().map(|s| s.to_string()).collect()
}

#[test]
fn the_check_of_a_posix_shell() {
    assert_eq!(
        if_check_statement(&names(&["add", "find"]), ShellKind::Posix),
        "[[ \"$1\" = \"add\" ]] || [[ \"$1\" = \"find\" ]] || [[ \"$1\" = \"help\" ]] || [[ \"$1\" == -* ]]"
    );
    assert_eq!(
        if_check_statement(&names(&[]), ShellKind::Posix),
        "[[ \"$1\" = \"help\" ]] || [[ \"$1\" == -* ]]"
    );
}

#[test]
fn the_check_of_powershell() {
    assert_eq!(
        if_check_statement(&names(&["add", "find"]), ShellKind::PowerShell),
        "($args.Count -ge 1) -and ($args[0] -eq 'add' -or $args[0] -eq 'find' -or $args[0] -eq 'help' -or $args[0].StartsWith('-'))"
    );
    assert_eq!(
        if_check_statement(&names(&[]), ShellKind::PowerShell),
        "($args.Count -ge 1) -and ($args[0] -eq 'help' -or $args[0].StartsWith('-'))"
    );
}

#[test]
fn lines_are_what_std_gives() {
    for text in [
        "",
        "a",
        "a\n",
        "a\nb",
        "a\r\nb\r\n",
        "\n",
        "\n\n",
        "\r\n",
        "a\r",
        "foo\nbar\n\r\nbaz\r",
        "a\r\r\nb",
        "\u{e9}t\u{e9}\n\u{4e2d}",
    ] {
        let mine: Vec<String> = lines(text).into_iter().map(|l| l.into_iter().collect()).collect();
        let std_lines: Vec<String> = text.lines().map(|l| l.to_string()).collect();
        assert_eq!(mine, std_lines, "lines of {:?}", text);
    }
}

/// The same rules, written with the text functions of std.
fn by_std(script: &str) -> String {
    let mut in_param_block = false;
    let mut paren_depth: i64 = 0;
    let mut seen: Vec<String> = Vec::new();
    let all: Vec<&str> = script.lines().collect();
    let mut out: Vec<String> = Vec::new();
    for (idx, line) in all.iter().enumerate() {
        let trimmed = line.trim();
        if trimmed.is_empty() {
            out.push(line.to_string());
            continue;
        }
        if trimmed.starts_with("using namespace ") {
            if seen.iter().any(|s| s == trimmed) {
                continue;
            }
            seen.push(trimmed.to_string());
        }
        if trimmed.starts_with("param(") || trimmed.contains(" param(") {
            in_param_block = true;
            paren_depth = 0;
        }
        if in_param_block {
            paren_depth += trimmed.matches('(').count() as i64;
            paren_depth -= trimmed.matches(')').count() as i64;
            if paren_depth <= 0 {
                in_param_block = false;
            }
            out.push(line.to_string());
            continue;
        }
        let next_line_continues = if idx + 1 < all.len() {
            let next = all[idx + 1].trim();
            let closing_only = next == "}" || next == "};";
            let control = trimmed.ends_with('}')
                && (next.starts_with("catch")
                    || next.starts_with("finally")
                    || next.starts_with("elseif")
                    || next.starts_with("else"));
            control
                || (!closing_only
                    && (next.starts_with(')')
                        || next.starts_with('}')
                        || next.starts_with("-or")
                        || next.starts_with("-and")))
        } else {
            false
        };
        let needs_semicolon = !next_line_continues
            && !trimmed.starts_with('#')
            && !trimmed.ends_with('{')
            && !trimmed.ends_with('(')
            && !trimmed.ends_with(',')
            && !trimmed.ends_with('|')
            && !trimmed.ends_with('\\')
            && !trimmed.ends_with("-or")
            && !trimmed.ends_with("-and");
        if needs_semicolon {
            out.push(format!("{};", line));
        } else {
            out.push(line.to_string());
        }
    }
    out.join("\n")
}

const SCRIPT: &str = "
using namespace System.Management.Automation
using namespace System.Management.Automation.Language

Register-ArgumentCompleter -Native -CommandName 'prog' -ScriptBlock {
    param($wordToComplete, $commandAst, $cursorPosition)

    $commandElements = $commandAst.CommandElements
    $command = @(
        'prog'
        for ($i = 1; $i -lt $commandElements.Count; $i++) {
            $element = $commandElements[$i]
            if ($element -isnot [StringConstantExpressionAst] -or
                $element.StringConstantType -ne [StringConstantType]::BareWord -or
                $element.Value.StartsWith('-')) {
                break
        }
        $element.Value
    }) -join ';'

    $completions = @(switch ($command) {
        'prog' {
            [CompletionResult]::new('-h', '-h', [CompletionResultType]::ParameterName, 'Print help')
            break
        }
    })

    $completions.Where{ $_.CompletionText -like \"$wordToComplete*\" } |
        Sort-Object -Property ListItemText
}
using namespace System.Management.Automation
  using namespace System.Management.Automation.Language
function p {
  param(
    [string]$first,
    [int]$second = (Get-Default
      -Name 'x')
  )
  try {
    prog @args
  }
  catch {
    Write-Error 'failed'
  }
  finally { $x = 1 }
  if ($a) { 1 }
  elseif ($b) { 2 }
  else { 3 }
  # a comment
  $y = 1,
    2
  $z = $a \\
  $w = $a -or
    $b
  $v = $a
    -and $b
  };
}";

#[test]
fn a_finished_script_is_what_the_rules_give() {
    let finished = finish_powershell(SCRIPT);
    assert_eq!(finished, by_std(SCRIPT));
    assert_eq!(finished.matches("using namespace System.Management.Automation\n").count(), 0);
    assert_eq!(finished.matches("using namespace System.Management.Automation;").count(), 1);
    assert_eq!(finished.matches("using namespace System.Management.Automation.Language;").count(), 1);
    assert!(finished.contains("\n    param($wordToComplete, $commandAst, $cursorPosition)\n"));
    assert!(finished.contains("\n    $commandElements = $commandAst.CommandElements;\n"));
    assert!(finished.contains("    [int]$second = (Get-Default\n      -Name 'x')\n  )\n"));
    assert!(finished.contains("\n    prog @args;\n  }\n  catch {\n"));
    assert!(finished.contains("\n  # a comment\n"));
    assert!(finished.contains("  finally { $x = 1 };\n"));
    assert!(finished.contains("  if ($a) { 1 }\n  elseif ($b) { 2 }\n  else { 3 };\n"));
    assert!(finished.ends_with("\n  };;\n};"));
}

#[test]
fn finishing_small_scripts() {
    for script in [
        "",
        "\n",
        "a",
        "a\n",
        "a\r\nb\r\n",
        "   \n\t\n",
        "using namespace X\nusing namespace X\nusing namespace  X\n",
        "param(\n)\na\n",
        "x param((\n)\n)\nb",
        "param()\nparam(\n(((\n)))\n)\nlast",
        "a\n}\nb\n};\nc\n)\nd\n}x\n",
        "f {\n}\ncatch\ng }\ncatching\nh }\nelsewhere\n",
        "a |\nb (\nc ,\nd \\\ne -or\nf -and\n#g\n  # h\n",
        "a\n-or b\nc\n-and d\ne\n-x\n",
    ] {
        assert_eq!(finish_powershell(script), by_std(script), "script {:?}", script);
    }
    assert_eq!(finish_powershell("a\nb"), "a;\nb;");
    assert_eq!(finish_powershell("a {\n  b\n}\n"), "a {\n  b;\n};");
    assert_eq!(finish_powershell("using namespace X\nusing namespace X"), "using namespace X;");
}
