use elgato_keylight::controller::{KeyLight, DEFAULT_PORT, POLL_INTERVAL_SECS};
use elgato_keylight::light::{Light, Status};
use elgato_keylight::net::DeviceAddress;
use elgato_keylight::ElgatoError;

fn test_addr() -> DeviceAddress {
    DeviceAddress { oct0: 192, oct1: 168, oct2: 1, oct3: 7, port: DEFAULT_PORT }
}

fn one_light_status() -> Status {
    Status {
        number_of_lights: 1,
        lights: vec![Light { on: 0, brightness: 50, temperature: 200 }],
    }
}

#[test]
fn create_captures_name_and_initial_state() {
    let k = KeyLight::create(String::from("Key Light Left"), test_addr(), true, one_light_status());
    assert_eq!(k.name(), "Key Light Left");
    assert_eq!(k.get(), one_light_status());
}

#[test]
fn power_on_sets_every_light_and_commits_after_confirmation() {
    // device state {numberOfLights:1, lights:[{on:0, brightness:50, temperature:200}]}
    let mut k = KeyLight::create(String::from("kl"), test_addr(), true, one_light_status());
    let body = k.set_power(true);
    // the PUT body flips `on` and keeps everything else
    let expected = Status {
        number_of_lights: 1,
        lights: vec![Light { on: 1, brightness: 50, temperature: 200 }],
    };
    assert_eq!(body, expected);
    // the device answered 200: the body becomes the cache
    k.apply_push_result(body, true);
    assert_eq!(k.get().lights[0].on, 1);
}

#[test]
fn failed_push_leaves_cache_untouched() {
    let mut k = KeyLight::create(String::from("kl"), test_addr(), true, one_light_status());
    let before = k.get();
    let body = k.set_brightness(80);
    assert_eq!(body.lights[0].brightness, 80);
    // the push failed: the cache must still hold the pre-call value
    k.apply_push_result(body, false);
    assert_eq!(k.get(), before);
}

#[test]
fn set_brightness_clamps() {
    let k = KeyLight::create(String::from("kl"), test_addr(), true, one_light_status());
    let body = k.set_brightness(250);
    assert_eq!(body.lights[0].brightness, 100);
    assert_eq!(body.lights[0].on, 0);
    assert_eq!(body.lights[0].temperature, 200);
}

#[test]
fn set_temperature_maps_kelvin_to_codes() {
    let mut k = KeyLight::create(String::from("kl"), test_addr(), true, one_light_status());
    let b1 = k.set_temperature(2900);
    assert_eq!(b1.lights[0].temperature, 143);
    k.apply_push_result(b1, true);
    let b2 = k.set_temperature(7000);
    assert_eq!(b2.lights[0].temperature, 344);
    k.apply_push_result(b2, true);
    let b3 = k.set_temperature(4950);
    assert_eq!(b3.lights[0].temperature, 244);
    k.apply_push_result(b3, true);
    assert_eq!(k.get().lights[0].temperature, 244);
}

#[test]
fn relative_brightness_shifts_each_light_and_reports_sum() {
    let initial = Status {
        number_of_lights: 2,
        lights: vec![
            Light { on: 1, brightness: 20, temperature: 200 },
            Light { on: 1, brightness: 40, temperature: 200 },
        ],
    };
    let k = KeyLight::create(String::from("kl"), test_addr(), true, initial);
    let (body, sum) = k.set_relative_brightness(10);
    assert_eq!(body.lights[0].brightness, 30);
    assert_eq!(body.lights[1].brightness, 50);
    assert_eq!(sum, 80);
    // the caller's feedback is the mean of the committed values
    let mean = sum as f64 / body.lights.len() as f64;
    assert_eq!(mean, 40.0);
}

#[test]
fn refresh_overwrites_on_success_and_keeps_on_failure() {
    let mut k = KeyLight::create(String::from("kl"), test_addr(), true, one_light_status());
    let fetched = Status {
        number_of_lights: 1,
        lights: vec![Light { on: 1, brightness: 75, temperature: 300 }],
    };
    k.refresh(Some(fetched.clone()));
    assert_eq!(k.get(), fetched);
    // a failed background fetch is invisible
    k.refresh(None);
    assert_eq!(k.get(), fetched);
}

#[test]
fn error_labels() {
    assert_eq!(ElgatoError::ParseError.label(), "ParseError");
    assert_eq!(ElgatoError::NoLight.label(), "NoLight");
    assert_eq!(ElgatoError::DiscoverError.label(), "DiscoverError");
    assert_eq!(ElgatoError::RequestError.label(), "RequestError");
    assert_eq!(ElgatoError::IPError.label(), "IPError");
    assert_eq!(ElgatoError::CancelError.label(), "CancelError");
}

#[test]
fn poll_interval_is_five_seconds() {
    assert_eq!(POLL_INTERVAL_SECS, 5);
}

#[test]
fn setters_on_empty_snapshot_produce_empty_bodies() {
    let empty = Status { number_of_lights: 0, lights: Vec::new() };
    let k = KeyLight::create(String::from("kl"), test_addr(), true, empty);
    assert_eq!(k.set_power(true).lights.len(), 0);
    assert_eq!(k.set_brightness(50).lights.len(), 0);
    assert_eq!(k.set_temperature(5000).lights.len(), 0);
    let (body, sum) = k.set_relative_brightness(10);
    assert_eq!(body.lights.len(), 0);
    assert_eq!(sum, 0);
}

#[test]
fn commands_apply_uniformly_across_lights() {
    let initial = Status {
        number_of_lights: 3,
        lights: vec![
            Light { on: 0, brightness: 10, temperature: 150 },
            Light { on: 1, brightness: 50, temperature: 250 },
            Light { on: 0, brightness: 90, temperature: 340 },
        ],
    };
    let k = KeyLight::create(String::from("kl"), test_addr(), true, initial);
    let body = k.set_power(true);
    for (i, light) in body.lights.iter().enumerate() {
        assert_eq!(light.on, 1);
        assert_eq!(light.brightness, k.get().lights[i].brightness);
        assert_eq!(light.temperature, k.get().lights[i].temperature);
    }
    let body = k.set_temperature(7000);
    for light in &body.lights {
        assert_eq!(light.temperature, 344);
    }
}
