use workflow_core::workflow::{js_workflow_to_execute_sequence, parse_js_workflow};

#[test]
fn test_parse_minimal_workflow() {
    let js = r#"
export const workflow = {
  id: 'minimal',
  steps: []
};
"#;
    let result = parse_js_workflow(js);
    assert!(result.is_err(), "Empty steps should fail validation");
}

#[test]
fn test_parse_simple_workflow() {
    let js = r#"
export const workflow = {
  id: 'test-workflow',
  name: 'Test Workflow',
  description: 'A test workflow',
  version: '1.0.0',
  steps: [
    {
      id: 'step1',
      tool_name: 'open_application',
      arguments: {
        app_name: 'notepad'
      }
    }
  ]
};
"#;

    let workflow = parse_js_workflow(js).unwrap();
    assert_eq!(workflow.id, Some("test-workflow".to_string()));
    assert_eq!(workflow.name, Some("Test Workflow".to_string()));
    assert_eq!(workflow.description, Some("A test workflow".to_string()));
    assert_eq!(workflow.version, Some("1.0.0".to_string()));
    assert_eq!(workflow.steps.len(), 1);

    // Verify step structure
    let step = &workflow.steps[0];
    assert_eq!(step.get("id").and_then(|v| v.as_str()), Some("step1"));
    assert_eq!(step.get("tool_name").and_then(|v| v.as_str()), Some("open_application"));
    assert!(step.get("arguments").is_some());
}

#[test]
fn test_parse_multiple_steps() {
    let js = r#"
export const workflow = {
  id: 'multi-step',
  steps: [
    { tool_name: 'step1' },
    { tool_name: 'step2' },
    { tool_name: 'step3' }
  ]
};
"#;

    let workflow = parse_js_workflow(js).unwrap();
    assert_eq!(workflow.steps.len(), 3);
}

#[test]
fn test_export_const_workflow() {
    let js = r#"
export const workflow = {
  id: 'export-const',
  steps: [{ tool_name: 'test' }]
};
"#;
    let workflow = parse_js_workflow(js).unwrap();
    assert_eq!(workflow.id, Some("export-const".to_string()));
}

#[test]
fn test_export_default() {
    let js = r#"
export default {
  id: 'export-default',
  steps: [{ tool_name: 'test' }]
};
"#;
    let workflow = parse_js_workflow(js).unwrap();
    assert_eq!(workflow.id, Some("export-default".to_string()));
}

#[test]
fn test_module_exports() {
    let js = r#"
module.exports = {
  id: 'module-exports',
  steps: [{ tool_name: 'test' }]
};
"#;
    let workflow = parse_js_workflow(js).unwrap();
    assert_eq!(workflow.id, Some("module-exports".to_string()));
}

#[test]
fn test_no_export_pattern() {
    let js = r#"
const workflow = {
  id: 'no-export',
  steps: [{ tool_name: 'test' }]
};
"#;
    let result = parse_js_workflow(js);
    assert!(result.is_err(), "Should fail without export pattern");
    assert!(result.err().unwrap().message().contains("Could not find workflow export"));
}

#[test]
fn test_single_line_comments() {
    let js = r#"
// Header comment
export const workflow = {
  id: 'with-comments', // inline comment
  // another comment
  steps: [
    { tool_name: 'test' } // step comment
  ]
};
"#;
    let workflow = parse_js_workflow(js).unwrap();
    assert_eq!(workflow.id, Some("with-comments".to_string()));
}

#[test]
fn test_multi_line_comments() {
    let js = r#"
/*
 * Multi-line comment block
 * with multiple lines
 */
export const workflow = {
  id: 'multi-comment',
  steps: [
    { /* inline block */ tool_name: 'test' }
  ]
};
"#;
    let workflow = parse_js_workflow(js).unwrap();
    assert_eq!(workflow.id, Some("multi-comment".to_string()));
}

#[test]
fn test_mixed_comments() {
    let js = r#"
// Single line
/* Multi
   line */
export const workflow = {
  id: 'mixed', // inline
  /* block */ steps: [{ tool_name: 'test' }]
};
"#;
    let workflow = parse_js_workflow(js).unwrap();
    assert_eq!(workflow.id, Some("mixed".to_string()));
}

#[test]
fn test_single_quotes() {
    let js = r#"
export const workflow = {
  id: 'single-quotes',
  name: 'Test Name',
  steps: [{ tool_name: 'test' }]
};
"#;
    let workflow = parse_js_workflow(js).unwrap();
    assert_eq!(workflow.name, Some("Test Name".to_string()));
}

#[test]
fn test_double_quotes() {
    let js = r#"
export const workflow = {
  "id": "double-quotes",
  "name": "Test Name",
  "steps": [{ "tool_name": "test" }]
};
"#;
    let workflow = parse_js_workflow(js).unwrap();
    assert_eq!(workflow.id, Some("double-quotes".to_string()));
}

#[test]
fn test_template_literals() {
    let js = r#"
export const workflow = {
  id: `template-id`,
  name: `Template Name`,
  steps: [
    {
      tool_name: `test`,
      arguments: { text: `Hello World` }
    }
  ]
};
"#;
    let workflow = parse_js_workflow(js).unwrap();
    assert_eq!(workflow.id, Some("template-id".to_string()));
    assert_eq!(workflow.name, Some("Template Name".to_string()));
}

#[test]
fn test_with_variables() {
    let js = r#"
export const workflow = {
  id: 'var-workflow',
  variables: {
    userName: {
      type: 'string',
      label: 'User Name',
      default: 'John Doe'
    },
    count: {
      type: 'number',
      default: 5
    }
  },
  steps: [{ tool_name: 'test' }]
};
"#;
    let workflow = parse_js_workflow(js).unwrap();
    assert!(workflow.variables.is_some());

    let vars = workflow.variables.unwrap();
    assert!(vars.contains_key("userName"));
    assert!(vars.contains_key("count"));
}

#[test]
fn test_with_inputs() {
    let js = r#"
export const workflow = {
  id: 'inputs-workflow',
  inputs: {
    userName: 'Alice',
    appName: 'notepad'
  },
  steps: [{ tool_name: 'test' }]
};
"#;
    let workflow = parse_js_workflow(js).unwrap();
    assert!(workflow.inputs.is_some());

    let inputs = workflow.inputs.unwrap();
    assert_eq!(inputs.get("userName").and_then(|v| v.as_str()), Some("Alice"));
}

#[test]
fn test_with_selectors() {
    let js = r#"
export const workflow = {
  id: 'selectors-workflow',
  selectors: {
    submitButton: 'role:Button|name:Submit',
    textField: 'role:Edit'
  },
  steps: [{ tool_name: 'test' }]
};
"#;
    let workflow = parse_js_workflow(js).unwrap();
    assert!(workflow.selectors.is_some());
}

#[test]
fn test_with_metadata() {
    let js = r#"
export const workflow = {
  id: 'metadata-workflow',
  metadata: {
    author: 'Test Author',
    tags: ['test', 'example']
  },
  steps: [{ tool_name: 'test' }]
};
"#;
    let workflow = parse_js_workflow(js).unwrap();
    assert!(workflow.metadata.is_some());
}

#[test]
fn test_with_timeout() {
    let js = r#"
export const workflow = {
  id: 'timeout-workflow',
  timeout: 30000,
  steps: [{ tool_name: 'test' }]
};
"#;
    let workflow = parse_js_workflow(js).unwrap();
    assert_eq!(workflow.timeout, Some(30000));
}

#[test]
fn test_nested_arguments() {
    let js = r#"
export const workflow = {
  id: 'nested',
  steps: [
    {
      tool_name: 'test',
      arguments: {
        simple: 'value',
        nested: {
          key1: 'value1',
          key2: {
            deep: true
          }
        },
        array: [1, 2, 3]
      }
    }
  ]
};
"#;
    let workflow = parse_js_workflow(js).unwrap();
    let step = &workflow.steps[0];
    let args = step.get("arguments").unwrap();

    assert!(args.get("simple").is_some());
    assert!(args.get("nested").is_some());
    assert!(args.get("array").is_some());
}

#[test]
fn test_template_variable_references() {
    let js = r#"
export const workflow = {
  id: 'template-vars',
  steps: [
    {
      tool_name: 'test',
      arguments: {
        text: 'plain text without template'
      }
    }
  ]
};
"#;
    let workflow = parse_js_workflow(js).unwrap();
    assert_eq!(workflow.id, Some("template-vars".to_string()));

    // Test with actual template variables
    let js2 = r#"
export const workflow = {
  id: 'template-vars2',
  steps: [{
    tool_name: 'test',
    arguments: { text: '${{ inputs.userName }}' }
  }]
};
"#;
    let workflow2 = parse_js_workflow(js2);
    if workflow2.is_ok() {
        let step = &workflow2.unwrap().steps[0];
        let args = step.get("arguments").unwrap();
        // The template marker stays inside the string value
        assert!(args.get("text").is_some());
    }
}

#[test]
fn test_trailing_commas() {
    let js = r#"
export const workflow = {
  id: 'trailing-commas',
  name: 'Test',
  steps: [
    {
      tool_name: 'test',
      arguments: {
        key1: 'value1',
        key2: 'value2',
      },
    },
  ],
};
"#;
    let workflow = parse_js_workflow(js).unwrap();
    assert_eq!(workflow.id, Some("trailing-commas".to_string()));
}

#[test]
fn test_empty_steps_array() {
    let js = r#"
export const workflow = {
  id: 'empty-steps',
  steps: []
};
"#;
    let result = parse_js_workflow(js);
    assert!(result.is_err());
    assert!(result.err().unwrap().message().contains("at least one step"));
}

#[test]
fn test_missing_steps_field() {
    let js = r#"
export const workflow = {
  id: 'no-steps'
};
"#;
    let result = parse_js_workflow(js);
    assert!(result.is_err());
}

#[test]
fn test_invalid_json_structure() {
    let js = r#"
export const workflow = {
  id: 'invalid',
  steps: [
    {
      tool_name: 'test',
      // Invalid: missing closing brace
"#;
    let result = parse_js_workflow(js);
    assert!(result.is_err());
}

#[test]
fn test_no_export() {
    let js = r#"
const workflow = {
  id: 'private',
  steps: [{ tool_name: 'test' }]
};
"#;
    let result = parse_js_workflow(js);
    assert!(result.is_err());
}

#[test]
fn test_convert_to_execute_sequence() {
    let js = r#"
export const workflow = {
  id: 'test',
  name: 'Test',
  timeout: 5000,
  variables: { userName: { type: 'string', default: 'John' } },
  inputs: { userName: 'Jane' },
  selectors: { button: 'role:Button' },
  steps: [{ tool_name: 'test' }]
};
"#;
    let workflow = parse_js_workflow(js).unwrap();
    let sequence = js_workflow_to_execute_sequence(workflow);

    assert_eq!(sequence.get("tool_name").and_then(|v| v.as_str()), Some("execute_sequence"));

    let args = sequence.get("arguments").unwrap();
    assert!(args.get("steps").is_some());
    assert!(args.get("variables").is_some());
    assert!(args.get("inputs").is_some());
    assert!(args.get("selectors").is_some());

    assert_eq!(sequence.get("timeout_ms").and_then(|v| v.as_u64()), Some(5000));
}

#[test]
fn test_convert_minimal_workflow() {
    let js = r#"
export const workflow = {
  id: 'minimal',
  steps: [{ tool_name: 'test' }]
};
"#;
    let workflow = parse_js_workflow(js).unwrap();
    let sequence = js_workflow_to_execute_sequence(workflow);

    let args = sequence.get("arguments").unwrap();
    assert_eq!(args.get("steps").unwrap().as_array().unwrap().len(), 1);
    assert!(args.get("variables").is_none());
    assert!(args.get("inputs").is_none());
}

#[test]
fn test_realistic_notepad_workflow() {
    let js = r#"
export const workflow = {
  id: 'notepad-automation',
  name: 'Notepad Automation',
  description: 'Opens Notepad and types a message',
  version: '1.0.0',
  variables: {
    message: {
      type: 'string',
      default: 'Hello World'
    }
  },
  inputs: {
    message: 'Hello from workflow!'
  },
  steps: [
    {
      id: 'open-notepad',
      tool_name: 'open_application',
      arguments: { app_name: 'notepad' },
      delay_ms: 2000
    },
    {
      id: 'type-message',
      tool_name: 'type_into_element',
      arguments: { selector: 'role:Edit', text: 'typed text' },
      delay_ms: 1000
    }
  ]
};
"#;
    let workflow = parse_js_workflow(js).unwrap();

    assert_eq!(workflow.id, Some("notepad-automation".to_string()));
    assert_eq!(workflow.name, Some("Notepad Automation".to_string()));
    assert_eq!(workflow.steps.len(), 2);
    assert!(workflow.variables.is_some());
    assert!(workflow.inputs.is_some());

    // Verify step structure
    let step1 = &workflow.steps[0];
    assert_eq!(step1.get("id").and_then(|v| v.as_str()), Some("open-notepad"));
    assert_eq!(step1.get("delay_ms").and_then(|v| v.as_u64()), Some(2000));
}

#[test]
fn test_realistic_browser_workflow() {
    let js = r#"
export const workflow = {
  id: 'browser-form-fill',
  name: 'Browser Form Automation',
  selectors: {
    firstName: 'roleTextbox',
    lastName: 'roleTextbox2',
    submit: 'roleButton'
  },
  steps: [
    { tool_name: 'open_url', arguments: { url: 'https://example.com', browser: 'Chrome' } },
    { tool_name: 'type_into_element', arguments: { selector: 'field1', text: 'John' } },
    { tool_name: 'type_into_element', arguments: { selector: 'field2', text: 'Doe' } },
    { tool_name: 'click_element', arguments: { selector: 'button' } }
  ]
};
"#;
    let workflow = parse_js_workflow(js).unwrap();

    assert_eq!(workflow.steps.len(), 4);
    assert!(workflow.selectors.is_some());

    let selectors = workflow.selectors.unwrap();
    assert!(selectors.get("firstName").is_some());
    assert!(selectors.get("submit").is_some());
}
