use ntop::process::{FrameworkKind, HealthStatus, ProcessInfo, Runtime};
use std::time::Duration;

#[test]
fn test_framework_kind_display() {
    assert_eq!(FrameworkKind::NextJs.to_string(), "Next.js");
    assert_eq!(FrameworkKind::Express.to_string(), "Express");
    assert_eq!(FrameworkKind::Fastify.to_string(), "Fastify");
    assert_eq!(FrameworkKind::NestJs.to_string(), "NestJs");
    assert_eq!(FrameworkKind::Nuxt.to_string(), "Nuxt.js");
    assert_eq!(FrameworkKind::Koa.to_string(), "Koa");
    assert_eq!(FrameworkKind::Hapi.to_string(), "Hapi");
    assert_eq!(FrameworkKind::Generic.to_string(), "Generic");
}

#[test]
fn test_health_status_from_metrics() {
    assert_eq!(HealthStatus::from_cpu_mem(50.0f32.to_bits(), 50.0f32.to_bits()), HealthStatus::Healthy);
    assert_eq!(HealthStatus::from_cpu_mem(85.0f32.to_bits(), 50.0f32.to_bits()), HealthStatus::Warning);
    assert_eq!(HealthStatus::from_cpu_mem(50.0f32.to_bits(), 85.0f32.to_bits()), HealthStatus::Warning);
    assert_eq!(HealthStatus::from_cpu_mem(95.0f32.to_bits(), 50.0f32.to_bits()), HealthStatus::Critical);
    assert_eq!(HealthStatus::from_cpu_mem(50.0f32.to_bits(), 95.0f32.to_bits()), HealthStatus::Critical);
}

#[test]
fn test_health_status_zombie() {
    assert_eq!(
        HealthStatus::from_process_status("Zombie"),
        HealthStatus::Critical
    );
    assert_eq!(
        HealthStatus::from_process_status("Dead"),
        HealthStatus::Critical
    );
    assert_eq!(
        HealthStatus::from_process_status("Running"),
        HealthStatus::Healthy
    );
}

#[test]
fn test_process_info_default() {
    let info = ProcessInfo::new(1234, "node");
    assert_eq!(info.pid, 1234);
    assert_eq!(info.name, "node");
    assert_eq!(info.ppid, 0);
    assert_eq!(info.framework, FrameworkKind::Generic);
    assert_eq!(f32::from_bits(info.cpu_percent_bits), 0.0);
    assert_eq!(info.memory_rss, 0);
    assert!(info.ports.is_empty());
    assert!(info.children.is_empty());
    assert!(info.env_vars.is_empty());
    assert_eq!(info.status, "Running");
    assert!(!info.is_node());
}

#[test]
fn test_process_info_uptime_display() {
    let mut info = ProcessInfo::new(1, "node");
    info.uptime = Duration::from_secs(3725); // 1h 2m 5s
    assert_eq!(info.uptime_display(), "1h 2m 5s");

    info.uptime = Duration::from_secs(65); // 1m 5s
    assert_eq!(info.uptime_display(), "1m 5s");

    info.uptime = Duration::from_secs(5); // 5s
    assert_eq!(info.uptime_display(), "5s");
}

#[test]
fn test_process_info_memory_display() {
    let mut info = ProcessInfo::new(1, "node");
    info.memory_rss = 134_217_728; // 128 MB
    assert_eq!(info.memory_display(), "128.0 MB");

    info.memory_rss = 1_073_741_824; // 1 GB
    assert_eq!(info.memory_display(), "1.0 GB");

    info.memory_rss = 512;
    assert_eq!(info.memory_display(), "512 B");

    info.memory_rss = 2048;
    assert_eq!(info.memory_display(), "2.0 KB");
}

// ─── display_name ────────────────────────────────────────────────────

#[test]
fn test_display_name_empty_command_returns_process_name() {
    let info = ProcessInfo::new(1, "my-server");
    assert_eq!(info.display_name(), "my-server");
}

#[test]
fn test_display_name_non_node_binary_no_args() {
    let mut info = ProcessInfo::new(1, "custom-server");
    info.command = "/usr/local/bin/custom-server".to_string();
    assert_eq!(info.display_name(), "custom-server");
}

#[test]
fn test_display_name_non_node_binary_with_subcommand() {
    let mut info = ProcessInfo::new(1, "bun");
    info.command = "bun run dev".to_string();
    assert_eq!(info.display_name(), "bun run dev");
}

#[test]
fn test_display_name_non_node_binary_with_script() {
    let mut info = ProcessInfo::new(1, "bun");
    info.command = "bun server.js".to_string();
    assert_eq!(info.display_name(), "bun server.js");
}

#[test]
fn test_display_name_node_with_modules_tool_and_subcommand() {
    let mut info = ProcessInfo::new(1, "node");
    info.command = "node node_modules/.bin/next start".to_string();
    assert_eq!(info.display_name(), "next start");
}

#[test]
fn test_display_name_node_with_modules_tool_only() {
    let mut info = ProcessInfo::new(1, "node");
    info.command = "node node_modules/.bin/next".to_string();
    assert_eq!(info.display_name(), "next");
}

#[test]
fn test_display_name_node_with_script() {
    let mut info = ProcessInfo::new(1, "node");
    info.command = "node server.js".to_string();
    assert_eq!(info.display_name(), "node server.js");
}

#[test]
fn test_display_name_node_stops_at_json_blob() {
    let mut info = ProcessInfo::new(1, "node");
    info.command = "node server.js {envdata}".to_string();
    assert_eq!(info.display_name(), "node server.js");
}

#[test]
fn test_display_name_node_no_args_returns_name() {
    let mut info = ProcessInfo::new(1, "node");
    info.command = "node".to_string();
    assert_eq!(info.display_name(), "node");
}

// ─── health ──────────────────────────────────────────────────────────

#[test]
fn test_health_zombie_status_overrides_healthy_metrics() {
    let mut info = ProcessInfo::new(1, "node");
    info.status = "Zombie".to_string();
    info.cpu_percent_bits = 0.0f32.to_bits();
    info.memory_rss = 0;
    assert_eq!(info.health(), HealthStatus::Critical);
}

#[test]
fn test_health_running_with_low_resources_is_healthy() {
    let mut info = ProcessInfo::new(1, "node");
    info.status = "Running".to_string();
    info.cpu_percent_bits = 10.0f32.to_bits();
    info.memory_rss = 64 * 1_048_576; // 64 MB
    assert_eq!(info.health(), HealthStatus::Healthy);
}

#[test]
fn test_health_high_cpu_is_warning() {
    let mut info = ProcessInfo::new(1, "node");
    info.status = "Running".to_string();
    info.cpu_percent_bits = 85.0f32.to_bits();
    info.memory_rss = 0;
    assert_eq!(info.health(), HealthStatus::Warning);
}

#[test]
fn test_health_very_high_cpu_is_critical() {
    let mut info = ProcessInfo::new(1, "node");
    info.status = "Running".to_string();
    info.cpu_percent_bits = 95.0f32.to_bits();
    info.memory_rss = 0;
    assert_eq!(info.health(), HealthStatus::Critical);
}

#[test]
fn test_runtime_display() {
    assert_eq!(Runtime::Node.to_string(), "Node");
    assert_eq!(Runtime::Python.to_string(), "Python");
    assert_eq!(Runtime::Java.to_string(), "Java");
    assert_eq!(Runtime::Deno.to_string(), "Deno");
    assert_eq!(Runtime::Bun.to_string(), "Bun");
    assert_eq!(Runtime::Ruby.to_string(), "Ruby");
    assert_eq!(Runtime::Php.to_string(), "PHP");
    assert_eq!(Runtime::DotNet.to_string(), ".NET");
}

#[test]
fn test_new_framework_kind_display() {
    assert_eq!(FrameworkKind::FastApi.to_string(), "FastAPI");
    assert_eq!(FrameworkKind::Flask.to_string(), "Flask");
    assert_eq!(FrameworkKind::Django.to_string(), "Django");
    assert_eq!(FrameworkKind::SpringBoot.to_string(), "Spring Boot");
    assert_eq!(FrameworkKind::Rails.to_string(), "Rails");
    assert_eq!(FrameworkKind::Laravel.to_string(), "Laravel");
    assert_eq!(FrameworkKind::AspNet.to_string(), "ASP.NET");
}
