use nioh3_save_manager::cloud::{CloudError, CloudFix, Task};
use nioh3_save_manager::steam::update_cloud;

fn wrap(body: &str) -> String {
    format!(
        "\"UserLocalConfigStore\" {{ \"Software\" {{ \"Valve\" {{ \"Steam\" {{ \"apps\" {{ {body} }} }} }} }} }}"
    )
}

/// What the program did for a fix, step by step.
#[derive(Debug, PartialEq)]
enum Done {
    Read,
    Backup(Vec<u8>),
    Create,
    Fill(String),
    Reread,
    Replace,
    Remove,
}

/// Runs a fix of `source`; `fail` names the step that fails, and `changed`
/// is what a second read finds instead of the source.
fn fix(
    source: &[u8],
    fail: Option<Task>,
    changed: Option<&[u8]>,
) -> (Vec<Done>, Result<bool, CloudError>) {
    fix_app("4198760", source, fail, changed)
}

fn fix_app(
    app_id: &str,
    source: &[u8],
    fail: Option<Task>,
    changed: Option<&[u8]>,
) -> (Vec<Done>, Result<bool, CloudError>) {
    let mut fix = CloudFix::new(app_id, "D:\\backup\\sharedconfig.vdf");
    let mut done = Vec::new();
    let outcome = |task: Task| {
        if fail == Some(task) {
            Err(format!("{task:?} 失败"))
        } else {
            Ok(())
        }
    };
    loop {
        let task = fix.task();
        match task {
            Task::ReadConfig => {
                done.push(Done::Read);
                fix.read(outcome(task).map(|()| source.to_vec()));
            }
            Task::SaveBackup => {
                done.push(Done::Backup(fix.original().to_vec()));
                fix.done(outcome(task));
            }
            Task::CreateTemporary => {
                done.push(Done::Create);
                fix.done(outcome(task));
            }
            Task::FillTemporary => {
                done.push(Done::Fill(fix.updated().to_string()));
                fix.done(outcome(task));
            }
            Task::RereadConfig => {
                done.push(Done::Reread);
                let bytes = changed.unwrap_or(source).to_vec();
                fix.reread(outcome(task).map(|()| bytes));
            }
            Task::ReplaceConfig => {
                done.push(Done::Replace);
                fix.done(outcome(task));
            }
            Task::RemoveTemporary => {
                done.push(Done::Remove);
                fix.done(Ok(()));
            }
            Task::Finish => return (done, fix.finish()),
        }
    }
}

fn message(result: Result<bool, CloudError>) -> String {
    match result {
        Err(CloudError::Failed(message)) => message,
        other => panic!("unexpected {other:?}"),
    }
}

#[test]
fn the_edit_replaces_the_configuration_after_its_backup() {
    let source = wrap("\"4198760\" { \"CloudEnabled\" \"1\" }");
    let (done, result) = fix(source.as_bytes(), None, None);
    let updated = update_cloud(&source, "4198760").unwrap();
    assert_eq!(
        done,
        [
            Done::Read,
            Done::Backup(source.as_bytes().to_vec()),
            Done::Create,
            Done::Fill(updated),
            Done::Reread,
            Done::Replace,
        ]
    );
    assert!(matches!(result, Ok(true)));
}

#[test]
fn cloud_saves_already_off_are_backed_up_and_left_alone() {
    let source = wrap("\"4198760\" { \"CloudEnabled\" \"0\" }");
    let (done, result) = fix(source.as_bytes(), None, None);
    assert_eq!(done, [Done::Read, Done::Backup(source.as_bytes().to_vec())]);
    assert!(matches!(result, Ok(false)));
}

#[test]
fn a_configuration_that_cannot_be_edited_safely_is_not_touched() {
    let source = wrap("\"4198760\" {} \"4198760\" {}");
    let (done, result) = fix(source.as_bytes(), None, None);
    assert_eq!(done, [Done::Read]);
    assert!(matches!(result, Err(CloudError::Refused(_))));
}

#[test]
fn a_configuration_that_is_not_utf8_is_not_touched() {
    let (done, result) = fix(b"\"UserLocalConfigStore\" { \xff }", None, None);
    assert_eq!(done, [Done::Read]);
    assert_eq!(
        message(result),
        "Steam 配置不是有效的 UTF-8，未修改；请手动关闭云存档。"
    );
}

#[test]
fn a_configuration_changed_meanwhile_is_not_replaced() {
    let source = wrap("\"4198760\" { \"CloudEnabled\" \"1\" }");
    let other = wrap("\"4198760\" { \"CloudEnabled\" \"1\" \"x\" \"y\" }");
    let (done, result) = fix(source.as_bytes(), None, Some(other.as_bytes()));
    assert!(!done.contains(&Done::Replace));
    assert_eq!(done.last(), Some(&Done::Remove));
    assert_eq!(
        message(result),
        "Steam 配置在操作期间被其他程序修改，已停止替换；原配置未被本程序替换，备份位于 D:\\backup\\sharedconfig.vdf"
    );
}

#[test]
fn failed_lookup_or_backup_never_modifies_config() {
    let source = wrap("\"4198760\" { \"CloudEnabled\" \"1\" }");
    let (done, result) = fix_app("123", source.as_bytes(), None, None);
    assert_eq!(done, [Done::Read]);
    assert!(matches!(result, Err(CloudError::Refused(_))));
    let (done, result) = fix(source.as_bytes(), Some(Task::SaveBackup), None);
    assert!(!done.iter().any(|d| matches!(d, Done::Fill(_) | Done::Replace)));
    assert!(result.is_err());
}

#[test]
fn backs_up_exact_original_before_writing_and_preserves_existing_backup() {
    let source = wrap("\"4198760\" { \"CloudEnabled\" \"1\" }");
    let updated = update_cloud(&source, "4198760").unwrap();
    let (done, result) = fix(source.as_bytes(), None, None);
    assert_eq!(done[1], Done::Backup(source.as_bytes().to_vec()));
    assert_eq!(done[3], Done::Fill(updated.clone()));
    assert!(matches!(result, Ok(true)));
    // A second run finds the backup already there: creating it fails, and
    // nothing is written.
    let (done, result) = fix(updated.as_bytes(), Some(Task::SaveBackup), None);
    assert!(!done.iter().any(|d| matches!(d, Done::Fill(_) | Done::Replace)));
    assert!(result.is_err());
}

#[test]
fn each_failure_before_the_temporary_file_keeps_its_message() {
    let source = wrap("\"4198760\" { \"CloudEnabled\" \"1\" }");
    for task in [Task::ReadConfig, Task::SaveBackup, Task::CreateTemporary] {
        let (done, result) = fix(source.as_bytes(), Some(task), None);
        assert!(!done.iter().any(|d| matches!(d, Done::Fill(_) | Done::Replace)));
        assert_eq!(message(result), format!("{task:?} 失败"));
    }
}

#[test]
fn a_failed_write_or_rename_removes_the_temporary_file() {
    let source = wrap("\"4198760\" { \"CloudEnabled\" \"1\" }");
    for task in [Task::FillTemporary, Task::RereadConfig, Task::ReplaceConfig] {
        let (done, result) = fix(source.as_bytes(), Some(task), None);
        assert_eq!(done.last(), Some(&Done::Remove));
        assert_eq!(
            message(result),
            format!("{task:?} 失败；原配置未被本程序替换，备份位于 D:\\backup\\sharedconfig.vdf")
        );
    }
}
