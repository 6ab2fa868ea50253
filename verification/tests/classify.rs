use container_reconciler::category::{clasificar_contenedor, extract_label_from_name, Category};

#[test]
fn classifies_each_marker() {
    assert_eq!(clasificar_contenedor("stress_ram_1"), Some(Category::Ram));
    assert_eq!(clasificar_contenedor("stress_cpu_2"), Some(Category::Cpu));
    assert_eq!(clasificar_contenedor("stress_io_3"), Some(Category::Io));
    assert_eq!(clasificar_contenedor("stress_disk_4"), Some(Category::Disk));
}

#[test]
fn marker_may_stand_anywhere_in_the_name() {
    assert_eq!(clasificar_contenedor("/stress_ram_1"), Some(Category::Ram));
    assert_eq!(clasificar_contenedor("prefix_stress_cpu"), Some(Category::Cpu));
    assert_eq!(clasificar_contenedor("stress_disk"), Some(Category::Disk));
}

#[test]
fn unmarked_names_yield_no_category() {
    assert_eq!(clasificar_contenedor("http_request_logger"), None);
    assert_eq!(clasificar_contenedor(""), None);
    assert_eq!(clasificar_contenedor("stress_"), None);
    assert_eq!(clasificar_contenedor("stress_ra"), None);
    assert_eq!(clasificar_contenedor("ram"), None);
}

#[test]
fn classification_is_deterministic() {
    let name = "stress_io_worker_7";
    let first = clasificar_contenedor(name);
    let second = clasificar_contenedor(name);
    assert_eq!(first, second);
    assert_eq!(first, Some(Category::Io));
}

#[test]
fn ram_marker_wins_over_later_markers() {
    // A name carrying two markers classifies by the fixed order.
    assert_eq!(
        clasificar_contenedor("stress_cpu_then_stress_ram"),
        Some(Category::Ram)
    );
}

#[test]
fn labels_follow_classification() {
    assert_eq!(extract_label_from_name("stress_ram_1"), Some("ram"));
    assert_eq!(extract_label_from_name("stress_cpu_1"), Some("cpu"));
    assert_eq!(extract_label_from_name("stress_io_1"), Some("io"));
    assert_eq!(extract_label_from_name("stress_disk_1"), Some("disk"));
    assert_eq!(extract_label_from_name("unrelated"), None);
}
