use pt_core::impact::{
    count_children_of, generate_explanation, missing_data_sources, unique_write_categories,
    ChildCountCache, MissingDataSource,
    CriticalFileCategory, CriticalWriteCategory, ImpactComponents, ImpactError, ImpactSeverity,
    SupervisorCategory, SupervisorLevel,
};

#[test]
fn test_supervisor_level_from_category() {
    assert_eq!(
        SupervisorLevel::from(Some(SupervisorCategory::Agent)),
        SupervisorLevel::Agent
    );
    assert_eq!(
        SupervisorLevel::from(Some(SupervisorCategory::Orchestrator)),
        SupervisorLevel::Orchestrator
    );
    assert_eq!(SupervisorLevel::from(None), SupervisorLevel::NoSupervisor);
}

#[test]
fn unclassified_supervisor_is_unknown_level() {
    assert_eq!(
        SupervisorLevel::from(Some(SupervisorCategory::Other)),
        SupervisorLevel::Unknown
    );
    assert_eq!(SupervisorLevel::default(), SupervisorLevel::NoSupervisor);
}

#[test]
fn test_critical_write_category_from() {
    assert_eq!(
        CriticalWriteCategory::from(CriticalFileCategory::SqliteWal),
        CriticalWriteCategory::Database
    );
    assert_eq!(
        CriticalWriteCategory::from(CriticalFileCategory::GitLock),
        CriticalWriteCategory::Git
    );
    assert_eq!(
        CriticalWriteCategory::from(CriticalFileCategory::SystemPackageLock),
        CriticalWriteCategory::PackageManager
    );
}

#[test]
fn test_impact_components_default() {
    let components = ImpactComponents::default();
    assert_eq!(components.listen_ports_count, 0);
    assert_eq!(components.supervisor_level, SupervisorLevel::NoSupervisor);
    assert!(components.critical_write_categories.is_empty());
}

#[test]
fn unique_categories_are_sorted_and_deduplicated() {
    let cats = [
        CriticalFileCategory::OpenWrite,
        CriticalFileCategory::GitLock,
        CriticalFileCategory::SqliteWal,
        CriticalFileCategory::GitRebase,
        CriticalFileCategory::CargoLock,
        CriticalFileCategory::DatabaseWrite,
    ];
    assert_eq!(
        unique_write_categories(&cats),
        vec![
            CriticalWriteCategory::Database,
            CriticalWriteCategory::Git,
            CriticalWriteCategory::PackageManager,
            CriticalWriteCategory::Other,
        ]
    );
    assert!(unique_write_categories(&[]).is_empty());
}

#[test]
fn child_counts_from_parent_table() {
    let parents = [1u32, 100, 100, 1, 100, 7];
    let mut cache = ChildCountCache::new();
    assert_eq!(cache.get(100), 0);
    cache.populate(&parents);
    assert_eq!(cache.get(100), 3);
    assert_eq!(cache.get(1), 2);
    assert_eq!(cache.get(7), 1);
    assert_eq!(cache.get(42), 0);
    assert_eq!(count_children_of(&parents, 100), 3);
    assert_eq!(count_children_of(&parents, 42), 0);
    // populating again replaces the counts
    cache.populate(&[5]);
    assert_eq!(cache.get(100), 0);
    assert_eq!(cache.get(5), 1);
}

#[test]
fn test_explanation_generation() {
    let components = ImpactComponents {
        listen_ports_count: 2,
        established_conns_count: 5,
        critical_writes_count: 1,
        supervisor_level: SupervisorLevel::Agent,
        supervisor_name: Some("agent-runner".to_string()),
        ..Default::default()
    };

    // score 0.8, shown with two decimals; its severity is critical
    let explanation =
        generate_explanation(1234, "0.80", ImpactSeverity::Critical, false, &components);

    assert!(explanation.contains("1234"));
    assert!(explanation.contains("2 listening ports"));
    assert!(explanation.contains("5 active connections"));
    assert!(explanation.contains("1 critical write handle"));
    assert!(explanation.contains("Agent"));
    assert!(explanation.contains("agent-runner"));
}

#[test]
fn test_explanation_with_missing_data() {
    let components = ImpactComponents::default();
    let explanation =
        generate_explanation(1234, "0.50", ImpactSeverity::High, true, &components);

    assert!(explanation.contains("elevated due to missing data"));
}

#[test]
fn explanation_text_is_exact() {
    let components = ImpactComponents {
        listen_ports_count: 1,
        child_count: 3,
        supervisor_level: SupervisorLevel::Terminal,
        ..Default::default()
    };
    assert_eq!(
        generate_explanation(7, "0.31", ImpactSeverity::Medium, false, &components),
        "PID 7: impact=0.31 (medium); 1 listening port, 3 child processes, supervised by Terminal"
    );
    assert_eq!(
        generate_explanation(9, "0.00", ImpactSeverity::Low, false, &ImpactComponents::default()),
        "PID 9: impact=0.00 (low); no significant dependencies detected"
    );
}

#[test]
fn severity_and_error_texts() {
    assert_eq!(ImpactSeverity::Critical.to_string(), "critical");
    assert_eq!(ImpactSeverity::Low.to_string(), "low");
    assert_eq!(ImpactError::ProcessNotFound(12).to_string(), "Process 12 not found");
    assert_eq!(
        ImpactError::PermissionDenied(3).to_string(),
        "Permission denied for process 3"
    );
    assert_eq!(SupervisorLevel::Orchestrator.debug_name(), "Orchestrator");
}

#[test]
fn missing_sources_in_reporting_order() {
    assert_eq!(
        missing_data_sources(false, false, false, false, false),
        vec![
            MissingDataSource::Network,
            MissingDataSource::FileDescriptors,
            MissingDataSource::Supervision,
            MissingDataSource::ProcessTree,
        ]
    );
    assert_eq!(
        missing_data_sources(true, true, true, true, true),
        vec![MissingDataSource::TruncatedFileDescriptors]
    );
    assert!(missing_data_sources(true, true, false, true, true).is_empty());
    // truncation only matters when descriptors were read at all
    assert_eq!(
        missing_data_sources(true, false, true, true, true),
        vec![MissingDataSource::FileDescriptors]
    );
}
