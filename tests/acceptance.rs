use hi_telos::acceptance::{
    determine_overall_status, parse_acceptance_plan, plan_metrics, status_indicates_completion,
    AcceptanceOverallStatus, ParsedAcceptancePlan, TaskMatrixEntry, TodoItem,
};

fn rows(plan: &ParsedAcceptancePlan) -> Vec<(String, String, String)> {
    plan.task_matrix
        .iter()
        .map(|e| (e.module.clone(), e.task.clone(), e.status.clone()))
        .collect()
}

fn labels(items: &[TodoItem]) -> Vec<String> {
    items.iter().map(|i| i.label.clone()).collect()
}

#[test]
fn parse_acceptance_plan_extracts_sections() {
    let markdown = r#"
## 2. 任务矩阵
| 模块 | 任务 | 状态 |
| --- | --- | --- |
| API | Build endpoint | ✅ |

## 4. TODO 追踪

### 4.1 已完成清单
- [x] Completed item A
- [x] Completed item B

### 4.2 进行中/待定
- [ ] Pending item C
- 手动跟进事项

## 5. 验证方案概览
| 类型 | 验证内容 | 指令/方式 |
| --- | --- | --- |
| 端到端 | 测试闭环 | cargo test --test e2e |
| API | 校验接口 | curl http://localhost |

## 6. 其他
"#;

    let plan = parse_acceptance_plan(markdown);

    assert_eq!(
        rows(&plan),
        vec![(
            "API".to_string(),
            "Build endpoint".to_string(),
            "✅".to_string()
        )]
    );
    assert_eq!(
        labels(&plan.completed_todos),
        vec!["Completed item A".to_string(), "Completed item B".to_string()]
    );
    assert_eq!(
        labels(&plan.pending_todos),
        vec!["Pending item C".to_string(), "手动跟进事项".to_string()]
    );
    let checks: Vec<(String, String, String)> = plan
        .validation_plan
        .iter()
        .map(|e| (e.kind.clone(), e.description.clone(), e.command.clone()))
        .collect();
    assert_eq!(
        checks,
        vec![
            (
                "端到端".to_string(),
                "测试闭环".to_string(),
                "cargo test --test e2e".to_string()
            ),
            (
                "API".to_string(),
                "校验接口".to_string(),
                "curl http://localhost".to_string()
            ),
        ]
    );
}

#[test]
fn determine_overall_status_considers_modules_and_todos() {
    let task_matrix = vec![TaskMatrixEntry {
        module: "API".into(),
        task: "Expose endpoint".into(),
        status: "✅".into(),
    }];
    let pending = Vec::new();

    assert_eq!(
        determine_overall_status(&task_matrix, &pending),
        AcceptanceOverallStatus::Complete
    );

    let pending = vec![TodoItem {
        label: "Follow up".into(),
    }];

    assert_eq!(
        determine_overall_status(&task_matrix, &pending),
        AcceptanceOverallStatus::InProgress
    );
}

#[test]
fn status_indicates_completion_handles_variants() {
    assert!(status_indicates_completion("✅"));
    assert!(status_indicates_completion(" 完成 ✅ "));
    assert!(status_indicates_completion("done"));
    assert!(status_indicates_completion("Complete"));
    assert!(status_indicates_completion("已完成"));
    assert!(!status_indicates_completion("进行中"));
    assert!(!status_indicates_completion(""));
}

#[test]
fn plan_metrics_count_sections() {
    let markdown = "## 4. TODO 追踪\n\n### 4.1 已完成清单\n- [x] Done\n\n### 4.2 进行中/待定\n- Pending\n\n## 5. 验证方案概览\n| 类型 | 验证内容 | 指令/方式 |\n| --- | --- | --- |\n| Demo | Validate | run demo |\n";
    let plan = parse_acceptance_plan(markdown);
    let metrics = plan_metrics(&plan);
    assert_eq!(plan.task_matrix.len(), 0);
    assert_eq!(metrics.modules_total, 0);
    assert_eq!(metrics.modules_completed, 0);
    assert_eq!(metrics.todos_completed, 1);
    assert_eq!(metrics.todos_pending, 1);
    assert_eq!(metrics.validation_steps, 1);
    assert_eq!(metrics.overall_status, AcceptanceOverallStatus::InProgress);
}

#[test]
fn table_ends_at_text_and_rows_need_three_cells() {
    let markdown = "## 2. Matrix\n| a | b | c |\n|---|---|---|\n| M | T | done |\n| only | two |\nprose\n| X | Y | Z |\n";
    let plan = parse_acceptance_plan(markdown);
    assert_eq!(
        rows(&plan),
        vec![("M".to_string(), "T".to_string(), "done".to_string())]
    );
    let metrics = plan_metrics(&plan);
    assert_eq!(metrics.modules_completed, 1);
    assert_eq!(metrics.overall_status, AcceptanceOverallStatus::Complete);
}

#[test]
fn completion_ignores_ascii_case_only() {
    assert!(status_indicates_completion("DONE"));
    assert!(status_indicates_completion("  ✅ ✅ "));
    assert!(!status_indicates_completion("done soon"));
    assert!(!status_indicates_completion("   "));
}
