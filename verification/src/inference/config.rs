//! The settings of the prediction service.

use vstd::prelude::*;
use vstd::string::*;

use crate::collector::config::{
    env_str, env_u16, http_port, http_port_of, num_var, str_var, vars,
};
use crate::numbers::{int_text, push_int};

verus! {

/// The settings of the prediction service.
#[derive(Debug, Clone)]
pub struct Config {
    pub bind_host: String,
    pub bind_port: u16,
    /// Where the model is.
    pub model_path: String,
    /// Where the table that corrects the model's output is.
    pub calibration_path: String,
    pub ch_host: String,
    /// The port of the database for HTTP.
    pub ch_port: u16,
    pub ch_user: String,
    pub ch_password: String,
    pub ch_database: String,
}

impl Config {
    /// Reads the settings from the variables of the environment. A variable
    /// that is missing, or does not hold a number where one is needed, leaves
    /// the setting at its default.
    pub fn from_env(env: &Vec<(String, String)>) -> (r: Config)
        ensures
            ({
                let e = vars(env@);
                &&& r.bind_host@ == str_var(e, "INFERENCE_HOST"@, "127.0.0.1"@)
                &&& r.bind_port == num_var(e, "INFERENCE_PORT"@, 8765, u16::MAX as int)
                &&& r.model_path@ == str_var(e, "MODEL_PATH"@, "./models/model.onnx"@)
                &&& r.calibration_path@ == str_var(
                    e,
                    "CALIBRATION_PATH"@,
                    "./models/calibration.json"@,
                )
                &&& r.ch_host@ == str_var(e, "CH_HOST"@, "localhost"@)
                &&& r.ch_port == http_port_of(
                    num_var(e, "CH_PORT"@, 9000, u16::MAX as int) as u16,
                )
                &&& r.ch_user@ == str_var(e, "CH_USER"@, "default"@)
                &&& r.ch_password@ == str_var(e, "CH_PASSWORD"@, ""@)
                &&& r.ch_database@ == str_var(e, "CH_DATABASE"@, "pm"@)
            }),
    {
        Config {
            bind_host: env_str(env, "INFERENCE_HOST", "127.0.0.1"),
            bind_port: env_u16(env, "INFERENCE_PORT", 8765),
            model_path: env_str(env, "MODEL_PATH", "./models/model.onnx"),
            calibration_path: env_str(env, "CALIBRATION_PATH", "./models/calibration.json"),
            ch_host: env_str(env, "CH_HOST", "localhost"),
            ch_port: http_port(env_u16(env, "CH_PORT", 9000)),
            ch_user: env_str(env, "CH_USER", "default"),
            ch_password: env_str(env, "CH_PASSWORD", ""),
            ch_database: env_str(env, "CH_DATABASE", "pm"),
        }
    }

    /// The address that the service listens at.
    pub fn bind_addr(&self) -> (r: String)
        ensures
            r@ == self.bind_host@ + ":"@ + int_text(self.bind_port as int),
    {
        let mut addr: String = self.bind_host.clone();
        addr.append(":");
        push_int(&mut addr, self.bind_port as i128);
        addr
    }

    /// The address of the database.
    pub fn ch_url(&self) -> (r: String)
        ensures
            r@ == "http://"@ + self.ch_host@ + ":"@ + int_text(self.ch_port as int) + "/"@,
    {
        let mut url: String = "http://".to_owned();
        url.append(self.ch_host.as_str());
        url.append(":");
        push_int(&mut url, self.ch_port as i128);
        url.append("/");
        url
    }
}

} // verus!
