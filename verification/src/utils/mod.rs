pub mod validator;
