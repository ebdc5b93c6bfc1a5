use pumpkin::logging::{LogLevel, LoggingSettings, level_name, log_level_from_env, logger_plan};
use pumpkin::block::AIR_STATE_ID;
use pumpkin::plant::{
    CactusFlowerBlock, Ground, GroundBlock, ScheduledTick, TickPriority, can_plant_on_top, plant_can_place_at,
    plant_state_for_neighbor_update,
};
use pumpkin::server::{
    ConsoleAction, ConsoleEvent, ConsoleMode, LoggingConfig, OnlineAction, StartupFlags, StdinAction, StopSignal,
    Ticker, UdpPacketKind, classify_udp_packet, console_action, format_client_address, next_client_id, online_action,
    scrub_address, startup_plan, stdin_action, stop_server,
};

#[test]
fn scrub_keeps_separators() {
    assert_eq!(scrub_address("127.0.0.1:25565"), "xxx.x.x.x:xxxxx");
    assert_eq!(scrub_address("[::1]:80"), "x::xx:xx");
    assert_eq!(scrub_address(""), "");
    assert_eq!(format_client_address("10.0.0.2:1", true), "xx.x.x.x:x");
    assert_eq!(format_client_address("10.0.0.2:1", false), "10.0.0.2:1");
}

#[test]
fn client_ids_count_up() {
    let mut counter = 0u64;
    assert_eq!(next_client_id(&mut counter), 0);
    assert_eq!(next_client_id(&mut counter), 1);
    assert_eq!(counter, 2);
}

#[test]
fn udp_packets_are_sorted_by_first_byte() {
    let buf = [0x84u8, 1, 2, 3, 4, 5];
    assert_eq!(classify_udp_packet(&buf, 0), UdpPacketKind::Empty);
    assert_eq!(classify_udp_packet(&buf, 6), UdpPacketKind::Online);
    assert_eq!(classify_udp_packet(&[0x01, 9], 2), UdpPacketKind::Offline(1));
    assert_eq!(classify_udp_packet(&[0x7f], 1), UdpPacketKind::Offline(0x7f));
    assert_eq!(classify_udp_packet(&[0x80], 1), UdpPacketKind::Online);
    assert_eq!(online_action(true, 1), OnlineAction::Process);
    assert_eq!(online_action(false, 8), OnlineAction::TryConnect);
}

#[test]
fn stop_signal_is_raised() {
    let mut signal = StopSignal::new();
    assert!(Ticker::keeps_running(&signal));
    stop_server(&mut signal);
    assert!(signal.should_stop && signal.interrupted);
    assert!(!Ticker::keeps_running(&signal));
    stop_server(&mut signal);
    assert!(signal.should_stop && signal.interrupted);
}

#[test]
fn ticker_timing() {
    assert_eq!(Ticker::tick_interval_nanos(false, 50_000_000), 50_000_000);
    assert_eq!(Ticker::tick_interval_nanos(true, 50_000_000), 0);
    assert_eq!(Ticker::tick_interval_nanos(false, -1), u64::MAX);
    assert_eq!(Ticker::sleep_nanos(50_000_000, 20_000_000), Some(30_000_000));
    assert_eq!(Ticker::sleep_nanos(50_000_000, 50_000_000), None);
    assert_eq!(Ticker::sleep_nanos(50_000_000, 70_000_000), None);
    assert_eq!(Ticker::sleep_nanos(0, 0), None);
    assert_eq!(Ticker::recorded_tick_nanos(1_000), 1_000);
    assert_eq!(Ticker::recorded_tick_nanos(1u128 << 64), 0);
    assert_eq!(Ticker::recorded_tick_nanos((1u128 << 63) + 5), i64::MIN + 5);
}

#[test]
fn startup_choices() {
    let flags = StartupFlags {
        use_console: true,
        logger_present: true,
        readline_available: false,
        use_tty: true,
        rcon_enabled: false,
        java_edition: true,
        query_enabled: true,
        lan_broadcast_enabled: false,
        bedrock_edition: false,
    };
    let plan = startup_plan(flags);
    assert_eq!(plan.console, ConsoleMode::Stdin { warn_not_tty: true });
    assert!(plan.java_listener && plan.query && !plan.lan_broadcast && !plan.rcon && !plan.bedrock_socket);
    let no_java = startup_plan(StartupFlags { java_edition: false, readline_available: true, ..flags });
    assert_eq!(no_java.console, ConsoleMode::Readline);
    assert!(!no_java.query && !no_java.java_listener);
    let no_console = startup_plan(StartupFlags { logger_present: false, ..flags });
    assert_eq!(no_console.console, ConsoleMode::Off);
}

#[test]
fn console_reactions() {
    assert_eq!(console_action(ConsoleEvent::Line), ConsoleAction::Submit);
    assert_eq!(console_action(ConsoleEvent::Interrupted), ConsoleAction::StopServer);
    assert_eq!(console_action(ConsoleEvent::Eof), ConsoleAction::StopServer);
    assert_eq!(console_action(ConsoleEvent::Failed), ConsoleAction::Quit);
    assert_eq!(stdin_action(None, ""), StdinAction::Stop);
    assert_eq!(stdin_action(Some(0), ""), StdinAction::Stop);
    assert_eq!(
        stdin_action(Some(5), "stop\n"),
        StdinAction::Send { warn_unterminated: false, command: "stop".to_string() }
    );
    assert_eq!(
        stdin_action(Some(4), "stop"),
        StdinAction::Send { warn_unterminated: true, command: "stop".to_string() }
    );
    assert_eq!(
        stdin_action(Some(16), " \t say  hi\u{3000}\r\n"),
        StdinAction::Send { warn_unterminated: false, command: "say  hi".to_string() }
    );
}

#[test]
fn logging_config_holds_flags() {
    let c = LoggingConfig::new(true, false, true);
    assert!(c.color && !c.threads && c.timestamp);
}

#[test]
fn plants_need_dirt_or_farmland() {
    let dirt = Ground { block: GroundBlock::Dirt, top_side_solid: true };
    let stone = Ground { block: GroundBlock::Other, top_side_solid: true };
    let farmland = Ground { block: GroundBlock::Farmland, top_side_solid: false };
    assert!(can_plant_on_top(&dirt));
    assert!(plant_can_place_at(&farmland));
    assert!(!plant_can_place_at(&stone));
    assert_eq!(plant_state_for_neighbor_update(&stone, 42), AIR_STATE_ID);
    assert_eq!(plant_state_for_neighbor_update(&dirt, 42), 42);
}

#[test]
fn cactus_flower_rules() {
    let flower = CactusFlowerBlock;
    let cactus = Ground { block: GroundBlock::Cactus, top_side_solid: false };
    let sturdy = Ground { block: GroundBlock::Other, top_side_solid: true };
    let air = Ground { block: GroundBlock::Other, top_side_solid: false };
    let dirt_slab = Ground { block: GroundBlock::Dirt, top_side_solid: false };
    assert!(flower.can_place_at(&cactus));
    assert!(flower.can_place_at_internal(&sturdy));
    assert!(!flower.can_place_at(&air));
    assert!(!flower.can_place_at(&dirt_slab));
    assert_eq!(flower.on_place(&cactus, 77), 77);
    assert_eq!(flower.on_place(&air, 77), AIR_STATE_ID);
    assert_eq!(flower.get_state_for_neighbor_update(&cactus, 77), (77, None));
    assert_eq!(
        flower.get_state_for_neighbor_update(&air, 77),
        (77, Some(ScheduledTick { delay: 1, priority: TickPriority::Normal }))
    );
    assert!(flower.on_scheduled_tick(&air));
    assert!(!flower.on_scheduled_tick(&sturdy));
}

#[test]
fn log_levels_from_env() {
    assert_eq!(log_level_from_env(None), LogLevel::Info);
    assert_eq!(log_level_from_env(Some("DeBuG")), LogLevel::Debug);
    assert_eq!(log_level_from_env(Some("warn")), LogLevel::Warn);
    assert_eq!(log_level_from_env(Some("0")), LogLevel::Off);
    assert_eq!(log_level_from_env(Some("+5")), LogLevel::Trace);
    assert_eq!(log_level_from_env(Some("0002")), LogLevel::Warn);
    assert_eq!(log_level_from_env(Some("")), LogLevel::Error);
    assert_eq!(log_level_from_env(Some("7")), LogLevel::Info);
    assert_eq!(log_level_from_env(Some("verbose")), LogLevel::Info);
    assert_eq!(log_level_from_env(Some("OFF")), LogLevel::Off);
    assert_eq!(level_name(LogLevel::Trace), "trace");
    assert_eq!(level_name(LogLevel::Off), "off");
}

#[test]
fn logger_plans() {
    let settings = LoggingSettings { enabled: true, color: true, threads: false, timestamp: true, use_tty: true };
    let plan = logger_plan(settings, Some("error"), "logs/server.log", false).unwrap();
    assert_eq!(plan.level, LogLevel::Error);
    assert!(plan.file_logger && !plan.readline);
    assert_eq!(plan.config, LoggingConfig::new(true, false, true));
    let plan2 = logger_plan(settings, None, "", true).unwrap();
    assert!(!plan2.file_logger && plan2.readline);
    assert_eq!(plan2.level, LogLevel::Info);
    assert!(logger_plan(LoggingSettings { enabled: false, ..settings }, None, "", true).is_none());
}

#[test]
fn client_ids_rise_without_repeat() {
    let mut counter = 40u64;
    let ids: Vec<u64> = (0..5).map(|_| next_client_id(&mut counter)).collect();
    assert_eq!(ids, vec![40, 41, 42, 43, 44]);
    assert_eq!(counter, 45);
}
